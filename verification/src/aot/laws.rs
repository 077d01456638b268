//! What compiled code does on the host, and that it does what the instructions do.
//!
//! The model covers the part of the host that the code of arithmetic, logic, branch and memory
//! instructions touches: the general-purpose registers, the lanes of the vector registers, the
//! outcome of the last comparison, the guest memory, the memory of the executor, and the stack.
//! [`access`] holds what is said of loads and stores, [`metering`] what is said of metering,
//! [`calls`] what is said of calls into the executor, and [`hosted`] what is said of the code in
//! front of an instruction and of the instructions that the executor carries out.
pub mod access;
pub mod calls;
pub mod flow;
pub mod hosted;
pub mod metering;

use vstd::prelude::*;
use vstd::std_specs::bits::u32_leading_zeros;

use crate::aot::common;
use crate::aot::common::HOSTED_REGISTERS;
use crate::aot::emit;
use crate::aot::host::{Gpr, Label, Line, Op, Operand, Reg, Shift, Size, Width};
use crate::aot::pure;
use crate::aot::AotCompiler;
use crate::instruction;
use crate::instruction::Instruction;
use crate::opcode::{OpClass, Opcode};
use crate::register::Register;
use crate::vm;

verus! {

/// The outcome of the last comparison.
pub struct Flags {
    /// The operands were equal.
    pub equal: bool,
    /// The first operand was smaller, both taken as two's complement integers.
    pub less: bool,
    /// The first operand was smaller.
    pub below: bool,
    /// The difference was negative.
    pub negative: bool,
}

/// The state of the host.
pub struct Host {
    pub gprs: Map<Gpr, u64>,
    pub lanes: Map<(u8, u8), u32>,
    pub flags: Flags,
    /// The words of the guest memory, which starts where `r15` points. The code reaches it through
    /// a register alone.
    pub words: Map<int, u32>,
    /// The words of the rest of the memory by their addresses. The code reaches it through a
    /// register and a shift.
    pub cells: Map<u64, u32>,
    /// What was pushed and not yet popped.
    pub stack: Seq<u64>,
}

impl Host {
    /// The low half of a register.
    pub open spec fn low(self, gpr: Gpr) -> u32 {
        self.gprs[gpr] as u32
    }

    /// The value of an operand of a 32-bit operation.
    pub open spec fn value(self, o: Operand) -> u32 {
        match o {
            Operand::R(reg) => match reg.width() {
                Width::W8L => (self.low(reg.gpr()) % 0x100) as u32,
                _ => self.low(reg.gpr()),
            },
            Operand::I(n) => n as u32,
            Operand::H(n) => n as u32,
            Operand::Mask(n) => n,
            Operand::M(_, base, shift) => self.cells[self.place(base, shift)],
            _ => 0,
        }
    }

    /// Where an operand in memory is.
    pub open spec fn place(self, base: Reg, shift: Shift) -> u64 {
        let start = self.gprs[base.gpr()];
        match shift {
            Shift::Nothing => start,
            Shift::Plus(n) => start.wrapping_add(n),
            Shift::Minus(n) => start.wrapping_sub(n),
            Shift::Eights(n) => start.wrapping_add((8 * n) as u64),
            Shift::Index(index) => start.wrapping_add(self.gprs[index.gpr()]),
        }
    }

    /// The high half of a vector register.
    pub open spec fn top(self, v: u8) -> u64 {
        (self.lanes[(v, 2)] + self.lanes[(v, 3)] * 0x1_0000_0000) as u64
    }

    /// The number that two words of memory hold, the lower one first.
    pub open spec fn wide(self, at: u64) -> int {
        self.cells[at] + self.cells[at.wrapping_add(4)] * 0x1_0000_0000
    }

    /// Writing a whole register.
    pub open spec fn fill(self, reg: Reg, value: u64) -> Host {
        Host { gprs: self.gprs.insert(reg.gpr(), value), ..self }
    }

    /// Writing a word of memory.
    pub open spec fn put(self, at: u64, value: u32) -> Host {
        Host { cells: self.cells.insert(at, value), ..self }
    }

    /// Writing two words of memory.
    pub open spec fn put_wide(self, at: u64, value: int) -> Host {
        self.put(at, vm::word(value)).put(at.wrapping_add(4), vm::high_word(value))
    }

    /// Writing the low half of a register clears the high half.
    pub open spec fn set(self, reg: Reg, value: u32) -> Host {
        Host { gprs: self.gprs.insert(reg.gpr(), value as u64), ..self }
    }

    /// Writing the low byte of a register keeps the rest.
    pub open spec fn set_byte(self, reg: Reg, value: u32) -> Host {
        let kept = (self.gprs[reg.gpr()] / 0x100) * 0x100;
        Host { gprs: self.gprs.insert(reg.gpr(), (kept + value % 0x100) as u64), ..self }
    }

    /// Writing both halves of a product or both results of a division.
    pub open spec fn set_pair(self, low: u32, high: u32) -> Host {
        self.set(Reg::Eax, low).set(Reg::Edx, high)
    }

    /// The number in the pair of registers that is divided.
    pub open spec fn dividend(self) -> int {
        vm::signed(self.low(Gpr::Rdx)) * 0x1_0000_0000 + self.low(Gpr::Rax)
    }

    /// What a two-operand operation on words computes.
    pub open spec fn compute(op: Op, x: u32, y: u32) -> u32 {
        let s: u32 = y & 0x1f;
        match op {
            Op::Mov => y,
            Op::Add => vm::word(x + y),
            Op::Sub => vm::word(x - y),
            Op::Imul => vm::word(x * y),
            Op::And => x & y,
            Op::Or => x | y,
            Op::Xor => x ^ y,
            Op::Shl | Op::Shlx => x << s,
            Op::Shr | Op::Shrx => x >> s,
            Op::Sar | Op::Sarx => if vm::signed(x) >= 0 {
                x >> s
            } else {
                !((!x) >> s)
            },
            Op::Ror => if s == 0 {
                x
            } else {
                (x >> s) | (x << ((32 - s) as u32))
            },
            Op::Lzcnt => u32_leading_zeros(y),
            Op::Movzx => y,
            _ => x,
        }
    }

    /// The two-operand operations on words.
    pub open spec fn is_word_op(op: Op) -> bool {
        op is Mov || op is Add || op is Sub || op is Imul || op is And || op is Or || op is Xor
            || op is Shl || op is Shr || op is Sar || op is Ror || op is Lzcnt || op is Movzx
    }

    /// The guest address that a register points to.
    pub open spec fn pointee(self, base: Reg) -> int {
        self.gprs[base.gpr()] - self.gprs[Gpr::R15]
    }

    /// What is in guest memory. The bytes of a word count from the lowest one; halves do not
    /// straddle words.
    pub open spec fn load(self, size: Size, at: int) -> u32 {
        let word = self.words[at / 4];
        match size {
            Size::Byte => vm::byte_of(word, (at % 4) as u32),
            Size::Word => vm::half_of(word, (at % 4 / 2) as u32),
            _ => word,
        }
    }

    /// Changes guest memory.
    pub open spec fn store(self, size: Size, at: int, value: u32) -> Host {
        let opcode = match size {
            Size::Byte => Opcode::SB,
            Size::Word => Opcode::SH,
            _ => Opcode::SW,
        };
        let word = vm::stored(opcode, (at % 4) as u32, self.words[at / 4], value);
        Host { words: self.words.insert(at / 4, word), ..self }
    }

    /// A number of which only the low bits count, the highest of them being the sign.
    pub open spec fn widened(size: Size, value: u32) -> u32 {
        match size {
            Size::Byte => vm::extended(value, 8),
            Size::Word => vm::extended(value, 16),
            _ => value,
        }
    }

    /// The state after a register is moved to an address, a double word or a word. Narrower moves
    /// are not part of the model.
    pub open spec fn moved_to(self, at: u64, s: Reg) -> Host {
        match s.width() {
            Width::W64 => self.put_wide(at, self.gprs[s.gpr()] as int),
            Width::W32 => self.put(at, self.low(s.gpr())),
            _ => self,
        }
    }

    /// An operand that is a number or in a register.
    pub open spec fn is_word(o: Operand) -> bool {
        o is R || o is I || o is H || o is Mask
    }

    /// The state after a line. A line that is not part of the model changes nothing.
    #[verifier::opaque]
    pub open spec fn after(self, line: Line) -> Host {
        match line {
            Line::Op0(_, Op::Cdq) => self.set(
                Reg::Edx,
                if vm::signed(self.low(Gpr::Rax)) < 0 {
                    0xffff_ffff
                } else {
                    0
                },
            ),
            Line::Op1(_, Op::Not, Operand::R(d)) => self.set(d, !self.value(Operand::R(d))),
            Line::Op1(_, Op::Mul, s) => {
                let p = self.low(Gpr::Rax) * self.value(s);
                self.set_pair(vm::word(p), vm::high_word(p))
            },
            Line::Op1(_, Op::Imul, s) => {
                let p = vm::signed(self.low(Gpr::Rax)) * vm::signed(self.value(s));
                self.set_pair(vm::word(p), vm::high_word(p))
            },
            Line::Op1(_, Op::Div, s) => {
                let n = self.low(Gpr::Rdx) * 0x1_0000_0000 + self.low(Gpr::Rax);
                let d = self.value(s) as int;
                self.set_pair(vm::word(n / d), vm::word(n % d))
            },
            Line::Op1(_, Op::Idiv, s) => {
                let n = self.dividend();
                let d = vm::signed(self.value(s));
                self.set_pair(vm::word(vm::trunc_div(n, d)), vm::word(vm::trunc_rem(n, d)))
            },
            Line::Op1(_, Op::Setl, Operand::R(d)) => self.set_byte(
                d,
                if self.flags.less {
                    1
                } else {
                    0
                },
            ),
            Line::Op1(_, Op::Setb, Operand::R(d)) => self.set_byte(
                d,
                if self.flags.below {
                    1
                } else {
                    0
                },
            ),
            Line::Op2(_, Op::Cmp, a, b) => {
                let x = self.value(a);
                let y = self.value(b);
                Host {
                    flags: Flags {
                        equal: x == y,
                        less: vm::signed(x) < vm::signed(y),
                        below: x < y,
                        negative: vm::signed(vm::word(x - y)) < 0,
                    },
                    ..self
                }
            },
            Line::Op2(_, Op::Test, a, b) => {
                let x = self.value(a) & self.value(b);
                Host {
                    flags: Flags {
                        equal: x == 0,
                        less: vm::signed(x) < 0,
                        below: false,
                        negative: vm::signed(x) < 0,
                    },
                    ..self
                }
            },
            Line::Op2(_, Op::Lea, Operand::R(d), Operand::M(_, base, shift)) => self.fill(
                d,
                self.place(base, shift),
            ),
            Line::Op2(_, Op::Mov, Operand::R(d), Operand::M(_, base, Shift::Plus(n))) => {
                let at = self.place(base, Shift::Plus(n));
                match d.width() {
                    Width::W64 => self.fill(d, self.wide(at) as u64),
                    Width::W32 => self.set(d, self.cells[at]),
                    _ => self,
                }
            },
            Line::Op2(_, Op::Mov, Operand::M(_, base, Shift::Plus(n)), Operand::R(s)) => {
                self.moved_to(self.place(base, Shift::Plus(n)), s)
            },
            Line::Op2(_, Op::Mov, Operand::M(_, base, Shift::Index(index)), Operand::R(s)) => {
                self.moved_to(self.place(base, Shift::Index(index)), s)
            },
            Line::Op2(_, Op::Add, Operand::M(_, base, Shift::Eights(n)), Operand::I(count)) => {
                let at = self.place(base, Shift::Eights(n));
                self.put_wide(at, self.wide(at) + count)
            },
            Line::Op1(_, Op::Inc, Operand::M(size, base, Shift::Plus(n))) => {
                let at = self.place(base, Shift::Plus(n));
                match size {
                    Size::Dword => self.put(at, vm::word(self.cells[at] + 1)),
                    Size::Qword => self.put_wide(at, self.wide(at) + 1),
                    _ => self,
                }
            },
            Line::Op3(_, Op::Pextrq, Operand::R(d), Operand::X(v), Operand::I(1)) => self.fill(
                d,
                self.top(v),
            ),
            Line::Op3(_, Op::Pextrq, Operand::M(_, base, Shift::Eights(n)), Operand::X(v), Operand::I(1)) => {
                let at = self.place(base, Shift::Eights(n));
                self.put(at, self.lanes[(v, 2)]).put(at.wrapping_add(4), self.lanes[(v, 3)])
            },
            Line::Op2(_, Op::Movq, Operand::M(_, base, Shift::Eights(n)), Operand::X(v)) => {
                let at = self.place(base, Shift::Eights(n));
                self.put(at, self.lanes[(v, 0)]).put(at.wrapping_add(4), self.lanes[(v, 1)])
            },
            Line::Op2(_, Op::Mov, Operand::R(d), Operand::M(_, base, Shift::Eights(n))) => self.fill(
                d,
                self.wide(self.place(base, Shift::Eights(n))) as u64,
            ),
            Line::Op3(_, Op::Pinsrq, Operand::X(v), Operand::R(s), Operand::I(half))
            | Line::Op3(_, Op::PinsrqSpaced, Operand::X(v), Operand::R(s), Operand::I(half)) => {
                let value = self.gprs[s.gpr()] as int;
                Host {
                    lanes: self.lanes.insert((v, (2 * half) as u8), vm::word(value)).insert(
                        (v, (2 * half + 1) as u8),
                        vm::high_word(value),
                    ),
                    ..self
                }
            },
            Line::Op1(_, Op::Push, Operand::R(s)) => Host {
                stack: self.stack.push(self.gprs[s.gpr()]),
                ..self
            },
            Line::Op1(_, Op::Pop, Operand::R(d)) => Host {
                stack: self.stack.drop_last(),
                ..self.fill(d, self.stack.last())
            },
            Line::Op2(_, Op::Movsx, Operand::R(d), Operand::M(size, base, Shift::Nothing)) => self.set(
                d,
                Self::widened(size, self.load(size, self.pointee(base))),
            ),
            Line::Op2(_, Op::Movzx, Operand::R(d), Operand::M(size, base, Shift::Nothing)) => self.set(
                d,
                self.load(size, self.pointee(base)),
            ),
            Line::Op2(_, Op::Mov, Operand::R(d), Operand::M(size, base, Shift::Nothing)) => self.set(
                d,
                self.load(size, self.pointee(base)),
            ),
            Line::Op2(_, Op::Mov, Operand::M(size, base, Shift::Nothing), Operand::R(s)) => self.store(
                size,
                self.pointee(base),
                self.low(s.gpr()),
            ),
            Line::Op2(_, op, Operand::R(d), s) => if Self::is_word_op(op) && d.width() is W32
                && Self::is_word(s) {
                self.set(d, Self::compute(op, self.value(Operand::R(d)), self.value(s)))
            } else {
                self
            },
            Line::Op3(_, Op::Pextrd, Operand::R(d), Operand::X(v), Operand::I(l)) => self.set(
                d,
                self.lanes[(v, l as u8)],
            ),
            Line::Op3(_, Op::Pinsrd, Operand::X(v), Operand::R(s), Operand::I(l)) => Host {
                lanes: self.lanes.insert((v, l as u8), self.value(Operand::R(s))),
                ..self
            },
            Line::Op3(_, op, Operand::R(d), a, b) => if (op is Shlx || op is Shrx || op is Sarx)
                && d.width() is W32 && Self::is_word(a) && Self::is_word(b) {
                self.set(d, Self::compute(op, self.value(a), self.value(b)))
            } else {
                self
            },
            _ => self,
        }
    }

    /// The state after a listing.
    pub open spec fn run(self, lines: Seq<Line>) -> Host
        decreases lines.len(),
    {
        if lines.len() == 0 {
            self
        } else {
            self.run(lines.drop_last()).after(lines.last())
        }
    }

    /// The value of a guest register.
    pub open spec fn guest(self, reg: u8) -> u32 {
        match common::overriding(reg) {
            Some(held) => self.low(held.gpr()),
            None => self.lanes[(common::vector(reg), common::lane(reg))],
        }
    }

    /// Whether a jump is taken.
    pub open spec fn jumps(self, op: Op) -> bool {
        match op {
            Op::Je => self.flags.equal,
            Op::Jne => !self.flags.equal,
            Op::Js => self.flags.negative,
            Op::Jns => !self.flags.negative,
            Op::Jle => self.flags.equal || self.flags.less,
            Op::Jg => !self.flags.equal && !self.flags.less,
            _ => false,
        }
    }

    /// Everything but the scratch registers, the flags and the guest registers is unchanged.
    #[verifier::opaque]
    pub open spec fn keeps_the_rest(self, before: Host) -> bool {
        &&& self.words == before.words
        &&& forall|gpr: Gpr| #[trigger]
            self.gprs[gpr] == before.gprs[gpr] || is_scratch(gpr) || holds_a_guest(gpr)
        &&& forall|v: u8, l: u8| #[trigger]
            self.lanes[(v, l)] == before.lanes[(v, l)] || is_a_guest_lane(v, l)
    }

    /// The guest registers are unchanged but for two of them.
    pub open spec fn keeps_guests_but(self, before: Host, a: u8, b: u8) -> bool {
        forall|r: u8|
            r < HOSTED_REGISTERS && r != a && r != b ==> #[trigger] self.guest(r) == before.guest(r)
    }
}

/// The registers that the code of an instruction computes in.
pub open spec fn is_scratch(gpr: Gpr) -> bool {
    gpr is Rax || gpr is Rcx || gpr is Rdx || gpr is Rsi || gpr is Rdi
}

/// The registers that hold a guest register.
pub open spec fn holds_a_guest(gpr: Gpr) -> bool {
    gpr is R8 || gpr is R9 || gpr is R10 || gpr is R11 || gpr is R13 || gpr is Rbp
}

/// The lanes of the guest registers.
pub open spec fn is_a_guest_lane(v: u8, l: u8) -> bool {
    (v < 16 && l < 2) || (v == 13 && l < 4)
}

proof fn lemma_run_push(m: Host, lines: Seq<Line>, line: Line)
    ensures
        m.run(lines.push(line)) == m.run(lines).after(line),
{
    assert(lines.push(line).drop_last() =~= lines);
}

proof fn lemma_run_empty(m: Host)
    ensures
        m.run(Seq::empty()) == m,
{
}

/// Running one listing behind another.
pub proof fn runs_compose(m: Host, a: Seq<Line>, b: Seq<Line>)
    ensures
        m.run(a + b) == m.run(a).run(b),
    decreases b.len(),
{
    if b.len() == 0 {
        assert(a + b =~= a);
    } else {
        runs_compose(m, a, b.drop_last());
        assert((a + b).drop_last() =~= a + b.drop_last());
    }
}

proof fn lemma_run_one(m: Host, line: Line)
    ensures
        m.run(seq![line]) == m.after(line),
{
    assert(seq![line].drop_last() =~= Seq::<Line>::empty());
    lemma_run_empty(m);
    assert(m.run(seq![line].drop_last()) == m);
}

/// What fetching a guest register does.
pub open spec fn fetched(m: Host, reg: u8, dst: Reg, force: bool) -> Host {
    if common::overriding(reg) is Some && !force {
        m
    } else {
        m.set(dst, m.guest(reg))
    }
}

/// What giving a guest register a value does.
pub open spec fn stowed(m: Host, src: Reg, reg: u8) -> Host {
    match common::overriding(reg) {
        Some(held) => if src == held {
            m
        } else {
            m.set(held, m.low(src.gpr()))
        },
        None => Host {
            lanes: m.lanes.insert(
                (common::vector(reg), common::lane(reg)),
                m.low(src.gpr()),
            ),
            ..m
        },
    }
}

proof fn lemma_fetch(m: Host, code: Seq<Line>, reg: u8, dst: Reg, force: bool)
    requires
        reg < HOSTED_REGISTERS,
        dst.width() is W32,
    ensures
        m.run(code + common::fetch(reg, dst, force)) == fetched(m.run(code), reg, dst, force),
{
    reveal(Host::after);
    runs_compose(m, code, common::fetch(reg, dst, force));
    let mid = m.run(code);
    match common::overriding(reg) {
        Some(held) => {
            if force {
                lemma_run_one(mid, Line::Op2(2, Op::Mov, Operand::R(dst), Operand::R(held)));
            }
        },
        None => {
            lemma_run_one(
                mid,
                Line::Op3(
                    3,
                    Op::Pextrd,
                    Operand::R(dst),
                    Operand::X(common::vector(reg)),
                    Operand::I(common::lane(reg) as u64),
                ),
            );
        },
    }
}

proof fn lemma_stow(m: Host, code: Seq<Line>, src: Reg, reg: u8)
    requires
        reg < HOSTED_REGISTERS,
        src.width() is W32,
    ensures
        m.run(code + common::stow(src, reg)) == stowed(m.run(code), src, reg),
{
    reveal(Host::after);
    runs_compose(m, code, common::stow(src, reg));
    let mid = m.run(code);
    match common::overriding(reg) {
        Some(held) => {
            if src != held {
                lemma_run_one(mid, Line::Op2(3, Op::Mov, Operand::R(held), Operand::R(src)));
            }
        },
        None => {
            lemma_run_one(
                mid,
                Line::Op3(
                    3,
                    Op::Pinsrd,
                    Operand::X(common::vector(reg)),
                    Operand::R(src),
                    Operand::I(common::lane(reg) as u64),
                ),
            );
        },
    }
}

/// After a guest register was given a value it has that value, and no other one has changed.
proof fn lemma_stowed(m: Host, src: Reg, reg: u8)
    requires
        reg < HOSTED_REGISTERS,
        src.width() is W32,
    ensures
        stowed(m, src, reg).guest(reg) == m.low(src.gpr()),
        stowed(m, src, reg).keeps_guests_but(m, reg, reg),
        stowed(m, src, reg).keeps_the_rest(m),
        is_scratch(src.gpr()) ==> stowed(m, src, reg).gprs[src.gpr()] == m.gprs[src.gpr()],
{
    reveal(Host::keeps_the_rest);
    let n = stowed(m, src, reg);
    assert forall|r: u8| r < HOSTED_REGISTERS && r != reg implies #[trigger] n.guest(r) == m.guest(
        r,
    ) by {
        common::places_are_distinct(reg, r);
        common::places_are_distinct(r, reg);
    }
}

/// A fetched value is where it should be; the guest registers stand but for the one whose holder
/// it was fetched to.
proof fn lemma_fetched(m: Host, reg: u8, dst: Reg, force: bool)
    requires
        reg < HOSTED_REGISTERS,
        dst.width() is W32,
    ensures
        fetched(m, reg, dst, force).low(common::place(reg, dst, force).gpr()) == m.guest(reg),
        is_scratch(dst.gpr()) ==> forall|r: u8|
            r < HOSTED_REGISTERS ==> #[trigger] fetched(m, reg, dst, force).guest(r) == m.guest(r),
        forall|r: u8|
            r < HOSTED_REGISTERS && common::overriding(r) != Some(dst) ==> #[trigger] fetched(
                m,
                reg,
                dst,
                force,
            ).guest(r) == m.guest(r),
        is_scratch(dst.gpr()) || holds_a_guest(dst.gpr()) ==> fetched(
            m,
            reg,
            dst,
            force,
        ).keeps_the_rest(m),
{
    reveal(Host::keeps_the_rest);
}

/// The value of the second operand of an instruction.
pub open spec fn operand_b(m: Host, i: Instruction) -> u32 {
    if i.imm_b && i.imm_c {
        i.op_b
    } else {
        m.guest(instruction::reg_of(i.op_b))
    }
}

/// The value of the third operand of an instruction.
pub open spec fn operand_c(m: Host, i: Instruction) -> u32 {
    if i.imm_c {
        i.op_c
    } else {
        m.guest(instruction::reg_of(i.op_c))
    }
}

/// Whether the code of an instruction reads the operands as the instruction means them. Only
/// shifts read a second operand that is a number, and then the third one is a number too; the
/// operations without a form of their own for numbers read registers.
pub open spec fn operands_agree(i: Instruction) -> bool {
    match i.opcode {
        Opcode::SLL | Opcode::SRL | Opcode::SRA | Opcode::ROR => i.imm_b ==> i.imm_c,
        Opcode::NOR
        | Opcode::MULT
        | Opcode::MULTU
        | Opcode::DIV
        | Opcode::DIVU
        | Opcode::MOD
        | Opcode::MODU => !i.imm_c,
        _ => !(i.imm_b && i.imm_c),
    }
}

/// Whether the host traps: it does on a zero divisor, and where a signed quotient does not fit.
pub open spec fn host_traps(i: Instruction, b: u32, c: u32) -> bool {
    ||| vm::alu_traps(i.opcode, c)
    ||| (i.opcode is DIV || i.opcode is MOD) && b == 0x8000_0000 && c == 0xffff_ffff
}

/// Whether a state is what an instruction should leave: its result is in the destination, no
/// other guest register has changed, and neither have the registers that the run lives on.
pub open spec fn computes(i: Instruction, before: Host, after: Host) -> bool {
    let result = vm::alu_result(i.opcode, operand_b(before, i), operand_c(before, i));
    let lo = Register::LO.number();
    let hi = Register::HI.number();
    &&& after.keeps_the_rest(before)
    &&& if i.opcode.lo_hi() {
        after.guest(lo) == result.0 && after.guest(hi) == result.1 && after.keeps_guests_but(
            before,
            lo,
            hi,
        )
    } else {
        after.guest(i.op_a) == result.0 && after.keeps_guests_but(before, i.op_a, i.op_a)
    }
}

proof fn lemma_rest_adds_up(a: Host, b: Host, c: Host)
    requires
        b.keeps_the_rest(a),
        c.keeps_the_rest(b),
    ensures
        c.keeps_the_rest(a),
{
    reveal(Host::keeps_the_rest);
    assert forall|gpr: Gpr| #[trigger]
        c.gprs[gpr] == a.gprs[gpr] || is_scratch(gpr) || holds_a_guest(gpr) by {
        assert(b.gprs[gpr] == a.gprs[gpr] || is_scratch(gpr) || holds_a_guest(gpr));
    }
    assert forall|v: u8, l: u8| #[trigger]
        c.lanes[(v, l)] == a.lanes[(v, l)] || is_a_guest_lane(v, l) by {
        assert(b.lanes[(v, l)] == a.lanes[(v, l)] || is_a_guest_lane(v, l));
    }
}

/// A register that may be written: a scratch register or the holder of a guest register, taken
/// by its low half.
pub open spec fn writable(reg: Reg) -> bool {
    reg.width() is W32 && (is_scratch(reg.gpr()) || holds_a_guest(reg.gpr()))
}

proof fn lemma_set(m: Host, reg: Reg, value: u32)
    requires
        writable(reg),
    ensures
        m.set(reg, value).low(reg.gpr()) == value,
        m.set(reg, value).keeps_the_rest(m),
        forall|g: Gpr| g != reg.gpr() ==> #[trigger] m.set(reg, value).low(g) == m.low(g),
        forall|r: u8|
            common::overriding(r) != Some(reg) ==> #[trigger] m.set(reg, value).guest(r) == m.guest(r),
{
    reveal(Host::keeps_the_rest);
}

/// A state in which a register is to be stowed: the guest registers stand but for the one that
/// the register belongs to.
proof fn lemma_finish(i: Instruction, before: Host, m: Host, src: Reg)
    requires
        i.op_a < HOSTED_REGISTERS,
        !i.opcode.lo_hi(),
        writable(src),
        m.keeps_the_rest(before),
        m.keeps_guests_but(before, i.op_a, i.op_a),
        m.low(src.gpr()) == vm::alu_result(
            i.opcode,
            operand_b(before, i),
            operand_c(before, i),
        ).0,
    ensures
        computes(i, before, stowed(m, src, i.op_a)),
{
    let after = stowed(m, src, i.op_a);
    lemma_stowed(m, src, i.op_a);
    lemma_rest_adds_up(before, m, after);
    assert forall|r: u8|
        r < HOSTED_REGISTERS && r != i.op_a implies #[trigger] after.guest(r) == before.guest(r) by {
        assert(m.guest(r) == before.guest(r));
    }
}

/// Where a destination is computed: in the register that holds it, or in a scratch register.
proof fn lemma_destination(a: u8, scratch: Reg)
    requires
        a < HOSTED_REGISTERS,
        writable(scratch),
        is_scratch(scratch.gpr()),
    ensures
        writable(common::overriding_or(a, scratch)),
        forall|r: u8|
            r < HOSTED_REGISTERS && r != a ==> #[trigger] common::overriding(r) != Some(
                common::overriding_or(a, scratch),
            ),
{
    assert forall|r: u8| r < HOSTED_REGISTERS && r != a implies #[trigger] common::overriding(r)
        != Some(common::overriding_or(a, scratch)) by {
        common::places_are_distinct(a, r);
        common::places_are_distinct(r, a);
    }
}

/// What a two-operand operation does to a state in which its operands are in place.
proof fn lemma_binary(m: Host, code: Seq<Line>, op: Op, d: Reg, s: Operand)
    requires
        writable(d),
        Host::is_word_op(op),
        Host::is_word(s),
    ensures
        m.run(code.push(Line::Op2(3, op, Operand::R(d), s))) == m.run(code).set(
            d,
            Host::compute(op, m.run(code).low(d.gpr()), m.run(code).value(s)),
        ),
        m.run(code.push(Line::Op2(3, op, Operand::R(d), s))).keeps_the_rest(m.run(code)),
        m.run(code.push(Line::Op2(3, op, Operand::R(d), s))).low(d.gpr()) == Host::compute(
            op,
            m.run(code).low(d.gpr()),
            m.run(code).value(s),
        ),
        forall|r: u8|
            common::overriding(r) != Some(d) ==> #[trigger] m.run(
                code.push(Line::Op2(3, op, Operand::R(d), s)),
            ).guest(r) == m.run(code).guest(r),
{
    reveal(Host::after);
    lemma_run_push(m, code, Line::Op2(3, op, Operand::R(d), s));
    lemma_set(
        m.run(code),
        d,
        Host::compute(op, m.run(code).low(d.gpr()), m.run(code).value(s)),
    );
}

proof fn lemma_base_number(i: Instruction, m: Host)
    requires
        emit::compilable(i),
        AotCompiler::is_base(i.opcode),
        operands_agree(i),
        i.imm_c,
    ensures
        computes(i, m, m.run(AotCompiler::base_alu_listing(i))),
{
    let op = AotCompiler::base_op(i.opcode);
    let a = i.op_a;
    let b = instruction::reg_of(i.op_b);
    let dst = common::overriding_or(a, Reg::Edi);
    lemma_destination(a, Reg::Edi);
    let start = Seq::<Line>::empty();
    lemma_run_empty(m);
    let force = a != b;
    let rb = common::place(b, dst, force);
    let one = start + common::fetch(b, dst, force);
    lemma_fetch(m, start, b, dst, force);
    lemma_fetched(m, b, dst, force);
    let two = one.push(Line::Op2(3, op, Operand::R(rb), Operand::I(i.op_c as u64)));
    assert(rb == dst);
    lemma_binary(m, one, op, rb, Operand::I(i.op_c as u64));
    lemma_rest_adds_up(m, m.run(one), m.run(two));
    lemma_stow(m, two, rb, a);
    lemma_finish(i, m, m.run(two), rb);
}

proof fn lemma_base_same(i: Instruction, m: Host)
    requires
        emit::compilable(i),
        AotCompiler::is_base(i.opcode),
        !i.imm_c,
        i.op_a == instruction::reg_of(i.op_c),
    ensures
        computes(i, m, m.run(AotCompiler::base_alu_listing(i))),
{
    let op = AotCompiler::base_op(i.opcode);
    let a = i.op_a;
    let b = instruction::reg_of(i.op_b);
    let c = instruction::reg_of(i.op_c);
    let dst = common::overriding_or(a, Reg::Edi);
    lemma_destination(a, Reg::Edi);
    let start = Seq::<Line>::empty();
    lemma_run_empty(m);
    let one = start + common::fetch(c, Reg::Edx, true);
    lemma_fetch(m, start, c, Reg::Edx, true);
    lemma_fetched(m, c, Reg::Edx, true);
    let m1 = m.run(one);
    let two = one + common::fetch(b, dst, true);
    lemma_fetch(m, one, b, dst, true);
    lemma_fetched(m1, b, dst, true);
    let m2 = m.run(two);
    assert(m1.low(Gpr::Rdx) == m.guest(c));
    assert(m2.low(Gpr::Rdx) == m.guest(c));
    lemma_rest_adds_up(m, m1, m2);
    let three = two.push(Line::Op2(3, op, Operand::R(dst), Operand::R(Reg::Edx)));
    lemma_binary(m, two, op, dst, Operand::R(Reg::Edx));
    lemma_rest_adds_up(m, m2, m.run(three));
    lemma_stow(m, three, dst, a);
    lemma_finish(i, m, m.run(three), dst);
}

proof fn lemma_base_registers(i: Instruction, m: Host)
    requires
        emit::compilable(i),
        AotCompiler::is_base(i.opcode),
        !i.imm_c,
        i.op_a != instruction::reg_of(i.op_c),
    ensures
        computes(i, m, m.run(AotCompiler::base_alu_listing(i))),
{
    let op = AotCompiler::base_op(i.opcode);
    let a = i.op_a;
    let b = instruction::reg_of(i.op_b);
    let c = instruction::reg_of(i.op_c);
    let dst = common::overriding_or(a, Reg::Edi);
    lemma_destination(a, Reg::Edi);
    let start = Seq::<Line>::empty();
    lemma_run_empty(m);
    let rc = common::place(c, Reg::Edx, false);
    let one = start + common::fetch(b, dst, true);
    lemma_fetch(m, start, b, dst, true);
    lemma_fetched(m, b, dst, true);
    let m1 = m.run(one);
    let two = one + common::fetch(c, Reg::Edx, false);
    lemma_fetch(m, one, c, Reg::Edx, false);
    lemma_fetched(m1, c, Reg::Edx, false);
    let m2 = m.run(two);
    lemma_rest_adds_up(m, m1, m2);
    assert(m1.guest(c) == m.guest(c));
    assert(m2.low(rc.gpr()) == m.guest(c));
    assert(m2.low(dst.gpr()) == m.guest(b));
    let three = two.push(Line::Op2(3, op, Operand::R(dst), Operand::R(rc)));
    lemma_binary(m, two, op, dst, Operand::R(rc));
    lemma_rest_adds_up(m, m2, m.run(three));
    lemma_stow(m, three, dst, a);
    lemma_finish(i, m, m.run(three), dst);
}

proof fn lemma_not(m: Host, code: Seq<Line>, d: Reg)
    requires
        writable(d),
    ensures
        m.run(code.push(Line::Op1(3, Op::Not, Operand::R(d)))).keeps_the_rest(m.run(code)),
        m.run(code.push(Line::Op1(3, Op::Not, Operand::R(d)))).low(d.gpr()) == !m.run(code).low(
            d.gpr(),
        ),
        forall|r: u8|
            common::overriding(r) != Some(d) ==> #[trigger] m.run(
                code.push(Line::Op1(3, Op::Not, Operand::R(d))),
            ).guest(r) == m.run(code).guest(r),
{
    reveal(Host::after);
    lemma_run_push(m, code, Line::Op1(3, Op::Not, Operand::R(d)));
    lemma_set(m.run(code), d, !m.run(code).low(d.gpr()));
}

proof fn lemma_nor(i: Instruction, m: Host)
    requires
        emit::compilable(i),
        i.opcode is NOR,
        operands_agree(i),
    ensures
        computes(i, m, m.run(AotCompiler::nor_listing(i))),
{
    let a = i.op_a;
    let b = instruction::reg_of(i.op_b);
    let c = instruction::reg_of(i.op_c);
    let dst = common::overriding_or(a, Reg::Edi);
    lemma_destination(a, Reg::Edi);
    let start = Seq::<Line>::empty();
    lemma_run_empty(m);
    let rc = common::place(c, Reg::Edx, a == c);
    let one = if a == c {
        start + common::fetch(c, Reg::Edx, true)
    } else {
        start + common::fetch(b, dst, true)
    };
    let two = if a == c {
        one + common::fetch(b, dst, true)
    } else {
        one + common::fetch(c, Reg::Edx, false)
    };
    let m1 = m.run(one);
    let m2 = m.run(two);
    if a == c {
        lemma_fetch(m, start, c, Reg::Edx, true);
        lemma_fetched(m, c, Reg::Edx, true);
        lemma_fetch(m, one, b, dst, true);
        lemma_fetched(m1, b, dst, true);
        assert(m1.guest(b) == m.guest(b));
    } else {
        lemma_fetch(m, start, b, dst, true);
        lemma_fetched(m, b, dst, true);
        lemma_fetch(m, one, c, Reg::Edx, false);
        lemma_fetched(m1, c, Reg::Edx, false);
        assert(m1.guest(c) == m.guest(c));
    }
    lemma_rest_adds_up(m, m1, m2);
    assert(m2.low(rc.gpr()) == m.guest(c));
    assert(m2.low(dst.gpr()) == m.guest(b));
    let three = two.push(Line::Op2(3, Op::Or, Operand::R(dst), Operand::R(rc)));
    lemma_binary(m, two, Op::Or, dst, Operand::R(rc));
    lemma_rest_adds_up(m, m2, m.run(three));
    let four = three.push(Line::Op1(3, Op::Not, Operand::R(dst)));
    lemma_not(m, three, dst);
    lemma_rest_adds_up(m, m.run(three), m.run(four));
    lemma_stow(m, four, dst, a);
    lemma_finish(i, m, m.run(four), dst);
}

proof fn lemma_shift_numbers(i: Instruction, m: Host)
    requires
        emit::compilable(i),
        emit::supported(i),
        AotCompiler::is_shift(i.opcode),
        i.imm_b,
        i.imm_c,
    ensures
        computes(i, m, m.run(AotCompiler::shift_listing(i))),
{
    let a = i.op_a;
    let dst = common::overriding_or(a, Reg::Edi);
    lemma_destination(a, Reg::Edi);
    let start = Seq::<Line>::empty();
    lemma_run_empty(m);
    let one = start.push(Line::Op2(3, Op::Mov, Operand::R(dst), Operand::I(i.op_b as u64)));
    lemma_binary(m, start, Op::Mov, dst, Operand::I(i.op_b as u64));
    let two = one.push(Line::Op2(3, Op::Shl, Operand::R(dst), Operand::I(i.op_c as u64)));
    lemma_binary(m, one, Op::Shl, dst, Operand::I(i.op_c as u64));
    lemma_rest_adds_up(m, m.run(one), m.run(two));
    lemma_stow(m, two, dst, a);
    lemma_finish(i, m, m.run(two), dst);
}

proof fn lemma_shift_number(i: Instruction, m: Host)
    requires
        emit::compilable(i),
        AotCompiler::is_shift(i.opcode),
        !i.imm_b,
        i.imm_c,
    ensures
        computes(i, m, m.run(AotCompiler::shift_listing(i))),
{
    let op = AotCompiler::fixed_shift(i.opcode);
    let a = i.op_a;
    let b = instruction::reg_of(i.op_b);
    let dst = common::overriding_or(a, Reg::Edi);
    lemma_destination(a, Reg::Edi);
    let start = Seq::<Line>::empty();
    lemma_run_empty(m);
    let one = start + common::fetch(b, dst, true);
    lemma_fetch(m, start, b, dst, true);
    lemma_fetched(m, b, dst, true);
    let two = one.push(Line::Op2(3, op, Operand::R(dst), Operand::I(i.op_c as u64)));
    lemma_binary(m, one, op, dst, Operand::I(i.op_c as u64));
    lemma_rest_adds_up(m, m.run(one), m.run(two));
    lemma_stow(m, two, dst, a);
    lemma_finish(i, m, m.run(two), dst);
}

proof fn lemma_low_byte(x: u32)
    ensures
        ((x % 0x100) as u32) & 0x1f == x & 0x1f,
{
    assert(((x % 0x100) as u32) & 0x1f == x & 0x1f) by (bit_vector);
}

proof fn lemma_rotation(i: Instruction, m: Host)
    requires
        emit::compilable(i),
        i.opcode is ROR,
        !i.imm_b,
        !i.imm_c,
    ensures
        computes(i, m, m.run(AotCompiler::shift_listing(i))),
{
    let a = i.op_a;
    let b = instruction::reg_of(i.op_b);
    let c = instruction::reg_of(i.op_c);
    let dst = common::overriding_or(a, Reg::Edi);
    lemma_destination(a, Reg::Edi);
    let start = Seq::<Line>::empty();
    lemma_run_empty(m);
    let one = if a == c {
        start + common::fetch(c, Reg::Ecx, true)
    } else {
        start + common::fetch(b, dst, true)
    };
    let two = if a == c {
        one + common::fetch(b, dst, true)
    } else {
        one + common::fetch(c, Reg::Ecx, true)
    };
    let m1 = m.run(one);
    let m2 = m.run(two);
    if a == c {
        lemma_fetch(m, start, c, Reg::Ecx, true);
        lemma_fetched(m, c, Reg::Ecx, true);
        lemma_fetch(m, one, b, dst, true);
        lemma_fetched(m1, b, dst, true);
        assert(m1.guest(b) == m.guest(b));
    } else {
        lemma_fetch(m, start, b, dst, true);
        lemma_fetched(m, b, dst, true);
        lemma_fetch(m, one, c, Reg::Ecx, true);
        lemma_fetched(m1, c, Reg::Ecx, true);
        assert(m1.guest(c) == m.guest(c));
    }
    lemma_rest_adds_up(m, m1, m2);
    assert(m2.low(Gpr::Rcx) == m.guest(c));
    assert(m2.low(dst.gpr()) == m.guest(b));
    let three = two.push(Line::Op2(3, Op::Ror, Operand::R(dst), Operand::R(Reg::Cl)));
    lemma_binary(m, two, Op::Ror, dst, Operand::R(Reg::Cl));
    lemma_low_byte(m2.low(Gpr::Rcx));
    assert(m2.value(Operand::R(Reg::Cl)) & 0x1f == m.guest(c) & 0x1f);
    assert(m.run(three).low(dst.gpr()) == Host::compute(Op::Ror, m.guest(b), m.guest(c)));
    lemma_rest_adds_up(m, m2, m.run(three));
    lemma_stow(m, three, dst, a);
    lemma_finish(i, m, m.run(three), dst);
}

proof fn lemma_ternary(m: Host, code: Seq<Line>, op: Op, d: Reg, x: Operand, y: Operand)
    requires
        writable(d),
        op is Shlx || op is Shrx || op is Sarx,
        Host::is_word(x),
        Host::is_word(y),
    ensures
        m.run(code.push(Line::Op3(3, op, Operand::R(d), x, y))).keeps_the_rest(m.run(code)),
        m.run(code.push(Line::Op3(3, op, Operand::R(d), x, y))).low(d.gpr()) == Host::compute(
            op,
            m.run(code).value(x),
            m.run(code).value(y),
        ),
        forall|r: u8|
            common::overriding(r) != Some(d) ==> #[trigger] m.run(
                code.push(Line::Op3(3, op, Operand::R(d), x, y)),
            ).guest(r) == m.run(code).guest(r),
{
    reveal(Host::after);
    lemma_run_push(m, code, Line::Op3(3, op, Operand::R(d), x, y));
    lemma_set(m.run(code), d, Host::compute(op, m.run(code).value(x), m.run(code).value(y)));
}

/// Fetching two registers without disturbing any.
proof fn lemma_fetch_two(m: Host, b: u8, first: Reg, force: bool, c: u8, second: Reg)
    requires
        b < HOSTED_REGISTERS,
        c < HOSTED_REGISTERS,
        writable(first),
        writable(second),
        is_scratch(first.gpr()),
        is_scratch(second.gpr()),
        first.gpr() != second.gpr(),
    ensures
        ({
            let code = Seq::<Line>::empty() + common::fetch(b, first, force) + common::fetch(
                c,
                second,
                false,
            );
            let n = m.run(code);
            &&& n.keeps_the_rest(m)
            &&& n.low(common::place(b, first, force).gpr()) == m.guest(b)
            &&& n.low(common::place(c, second, false).gpr()) == m.guest(c)
            &&& forall|r: u8| r < HOSTED_REGISTERS ==> #[trigger] n.guest(r) == m.guest(r)
            &&& common::place(b, first, force).width() is W32
            &&& common::place(c, second, false).width() is W32
        }),
{
    let start = Seq::<Line>::empty();
    lemma_run_empty(m);
    let one = start + common::fetch(b, first, force);
    lemma_fetch(m, start, b, first, force);
    lemma_fetched(m, b, first, force);
    let m1 = m.run(one);
    let two = one + common::fetch(c, second, false);
    lemma_fetch(m, one, c, second, false);
    lemma_fetched(m1, c, second, false);
    let m2 = m.run(two);
    lemma_rest_adds_up(m, m1, m2);
    assert(m1.guest(c) == m.guest(c));
    assert forall|r: u8| r < HOSTED_REGISTERS implies #[trigger] m2.guest(r) == m.guest(r) by {
        assert(m1.guest(r) == m.guest(r));
    }
}

proof fn lemma_shift_registers(i: Instruction, m: Host)
    requires
        emit::compilable(i),
        i.opcode is SLL || i.opcode is SRL || i.opcode is SRA,
        !i.imm_b,
        !i.imm_c,
    ensures
        computes(i, m, m.run(AotCompiler::shift_listing(i))),
{
    let op = AotCompiler::variable_shift(i.opcode);
    let a = i.op_a;
    let b = instruction::reg_of(i.op_b);
    let c = instruction::reg_of(i.op_c);
    let dst = common::overriding_or(a, Reg::Edi);
    lemma_destination(a, Reg::Edi);
    lemma_fetch_two(m, b, Reg::Esi, false, c, Reg::Edx);
    let rb = common::place(b, Reg::Esi, false);
    let rc = common::place(c, Reg::Edx, false);
    let two = Seq::<Line>::empty() + common::fetch(b, Reg::Esi, false) + common::fetch(
        c,
        Reg::Edx,
        false,
    );
    let three = two.push(Line::Op3(3, op, Operand::R(dst), Operand::R(rb), Operand::R(rc)));
    lemma_ternary(m, two, op, dst, Operand::R(rb), Operand::R(rc));
    lemma_rest_adds_up(m, m.run(two), m.run(three));
    lemma_stow(m, three, dst, a);
    lemma_finish(i, m, m.run(three), dst);
}

/// A state in which the two results of a multiplication or division are to be stowed.
proof fn lemma_finish_pair(i: Instruction, before: Host, m: Host, code: Seq<Line>)
    requires
        i.opcode.lo_hi(),
        m.run(code).keeps_the_rest(before),
        forall|r: u8|
            r < HOSTED_REGISTERS ==> #[trigger] m.run(code).guest(r) == before.guest(r),
        (m.run(code).low(Gpr::Rax), m.run(code).low(Gpr::Rdx)) == vm::alu_result(
            i.opcode,
            operand_b(before, i),
            operand_c(before, i),
        ),
    ensures
        computes(
            i,
            before,
            m.run(
                code + common::stow(Reg::Edx, Register::HI.number()) + common::stow(
                    Reg::Eax,
                    Register::LO.number(),
                ),
            ),
        ),
{
    let hi = Register::HI.number();
    let lo = Register::LO.number();
    let m0 = m.run(code);
    let one = code + common::stow(Reg::Edx, hi);
    lemma_stow(m, code, Reg::Edx, hi);
    lemma_stowed(m0, Reg::Edx, hi);
    let m1 = m.run(one);
    let two = one + common::stow(Reg::Eax, lo);
    lemma_stow(m, one, Reg::Eax, lo);
    lemma_stowed(m1, Reg::Eax, lo);
    let m2 = m.run(two);
    lemma_rest_adds_up(before, m0, m1);
    lemma_rest_adds_up(before, m1, m2);
    assert(m1.low(Gpr::Rax) == m0.low(Gpr::Rax));
    assert(m2.guest(hi) == m1.guest(hi));
    assert forall|r: u8|
        r < HOSTED_REGISTERS && r != lo && r != hi implies #[trigger] m2.guest(r) == before.guest(r) by {
        assert(m1.guest(r) == m0.guest(r));
        assert(m0.guest(r) == before.guest(r));
    }
}

/// What a one-operand multiplication or division does.
proof fn lemma_pair(m: Host, code: Seq<Line>, line: Line, low: u32, high: u32)
    requires
        m.run(code).after(line) == m.run(code).set_pair(low, high),
    ensures
        m.run(code.push(line)).keeps_the_rest(m.run(code)),
        m.run(code.push(line)).low(Gpr::Rax) == low,
        m.run(code.push(line)).low(Gpr::Rdx) == high,
        forall|r: u8|
            r < HOSTED_REGISTERS ==> #[trigger] m.run(code.push(line)).guest(r) == m.run(code).guest(
                r,
            ),
{
    lemma_run_push(m, code, line);
    let m0 = m.run(code);
    let m1 = m0.set(Reg::Eax, low);
    lemma_set(m0, Reg::Eax, low);
    lemma_set(m1, Reg::Edx, high);
    lemma_rest_adds_up(m0, m1, m1.set(Reg::Edx, high));
}

proof fn lemma_mult(i: Instruction, m: Host)
    requires
        emit::compilable(i),
        i.opcode is MULT || i.opcode is MULTU,
        operands_agree(i),
    ensures
        computes(i, m, m.run(AotCompiler::mult_listing(i))),
{
    let b = instruction::reg_of(i.op_b);
    let c = instruction::reg_of(i.op_c);
    lemma_fetch_two(m, b, Reg::Eax, true, c, Reg::Edi);
    let rc = common::place(c, Reg::Edi, false);
    let two = Seq::<Line>::empty() + common::fetch(b, Reg::Eax, true) + common::fetch(
        c,
        Reg::Edi,
        false,
    );
    let n = m.run(two);
    let line = if i.opcode is MULT {
        Line::Op1(3, Op::Imul, Operand::R(rc))
    } else {
        Line::Op1(3, Op::Mul, Operand::R(rc))
    };
    let result = vm::alu_result(i.opcode, m.guest(b), m.guest(c));
    assert(n.after(line) == n.set_pair(result.0, result.1)) by {
        reveal(Host::after);
    }
    lemma_pair(m, two, line, result.0, result.1);
    lemma_rest_adds_up(m, n, m.run(two.push(line)));
    lemma_finish_pair(i, m, m, two.push(line));
}

/// Clearing or filling the high half of a dividend.
proof fn lemma_set_line(m: Host, code: Seq<Line>, line: Line, reg: Reg, value: u32)
    requires
        writable(reg),
        is_scratch(reg.gpr()),
        m.run(code).after(line) == m.run(code).set(reg, value),
    ensures
        m.run(code.push(line)).keeps_the_rest(m.run(code)),
        m.run(code.push(line)).low(reg.gpr()) == value,
        forall|g: Gpr|
            g != reg.gpr() ==> #[trigger] m.run(code.push(line)).low(g) == m.run(code).low(g),
        forall|r: u8|
            r < HOSTED_REGISTERS ==> #[trigger] m.run(code.push(line)).guest(r) == m.run(code).guest(
                r,
            ),
{
    lemma_run_push(m, code, line);
    lemma_set(m.run(code), reg, value);
}

/// A dividend whose high half is the sign of its low half is the low half.
proof fn lemma_extended_dividend(x: u32)
    ensures
        vm::signed(
            if vm::signed(x) < 0 {
                0xffff_ffff
            } else {
                0
            },
        ) * 0x1_0000_0000 + x == vm::signed(x),
{
}

/// The common start of the divisions: the dividend is in place with its high half cleared.
proof fn lemma_divide_start(i: Instruction, m: Host)
    requires
        emit::hosted(i.op_b),
        emit::hosted(i.op_c),
    ensures
        ({
            let b = instruction::reg_of(i.op_b);
            let c = instruction::reg_of(i.op_c);
            let rc = common::place(c, Reg::Edi, false);
            let code = (Seq::<Line>::empty() + common::fetch(b, Reg::Eax, true) + common::fetch(
                c,
                Reg::Edi,
                false,
            )).push(Line::Op2(3, Op::Mov, Operand::R(Reg::Edx), Operand::I(0)));
            let n = m.run(code);
            &&& n.keeps_the_rest(m)
            &&& n.low(Gpr::Rax) == m.guest(b)
            &&& n.low(Gpr::Rdx) == 0
            &&& n.low(rc.gpr()) == m.guest(c)
            &&& rc.width() is W32
            &&& rc.gpr() != Gpr::Rax && rc.gpr() != Gpr::Rdx
            &&& forall|r: u8| r < HOSTED_REGISTERS ==> #[trigger] n.guest(r) == m.guest(r)
        }),
{
    let b = instruction::reg_of(i.op_b);
    let c = instruction::reg_of(i.op_c);
    let rc = common::place(c, Reg::Edi, false);
    lemma_fetch_two(m, b, Reg::Eax, true, c, Reg::Edi);
    let two = Seq::<Line>::empty() + common::fetch(b, Reg::Eax, true) + common::fetch(
        c,
        Reg::Edi,
        false,
    );
    let line = Line::Op2(3, Op::Mov, Operand::R(Reg::Edx), Operand::I(0));
    let n = m.run(two);
    assert(n.after(line) == n.set(Reg::Edx, 0)) by {
        reveal(Host::after);
    }
    lemma_set_line(m, two, line, Reg::Edx, 0);
    lemma_rest_adds_up(m, n, m.run(two.push(line)));
    assert(common::place(b, Reg::Eax, true) == Reg::Eax);
    assert forall|r: u8| r < HOSTED_REGISTERS implies #[trigger] m.run(two.push(line)).guest(r)
        == m.guest(r) by {
        assert(n.guest(r) == m.guest(r));
    }
}

proof fn lemma_signed_division(i: Instruction, m: Host)
    requires
        emit::compilable(i),
        i.opcode is DIV || i.opcode is MOD,
        operands_agree(i),
    ensures
        computes(i, m, m.run(AotCompiler::div_mod_listing(i))),
{
    let a = i.op_a;
    let b = instruction::reg_of(i.op_b);
    let c = instruction::reg_of(i.op_c);
    let rc = common::place(c, Reg::Edi, false);
    lemma_divide_start(i, m);
    let three = (Seq::<Line>::empty() + common::fetch(b, Reg::Eax, true) + common::fetch(
        c,
        Reg::Edi,
        false,
    )).push(Line::Op2(3, Op::Mov, Operand::R(Reg::Edx), Operand::I(0)));
    let m3 = m.run(three);
    let sign: u32 = if vm::signed(m.guest(b)) < 0 {
        0xffff_ffff
    } else {
        0
    };
    let extend = Line::Op0(3, Op::Cdq);
    assert(m3.after(extend) == m3.set(Reg::Edx, sign)) by {
        reveal(Host::after);
    }
    lemma_set_line(m, three, extend, Reg::Edx, sign);
    let four = three.push(extend);
    let m4 = m.run(four);
    lemma_rest_adds_up(m, m3, m4);
    let divide = Line::Op1(3, Op::Idiv, Operand::R(rc));
    let q = vm::word(vm::trunc_div(vm::signed(m.guest(b)), vm::signed(m.guest(c))));
    let r = vm::word(vm::trunc_rem(vm::signed(m.guest(b)), vm::signed(m.guest(c))));
    assert(m4.after(divide) == m4.set_pair(q, r)) by {
        reveal(Host::after);
        lemma_extended_dividend(m.guest(b));
        assert(m4.low(rc.gpr()) == m3.low(rc.gpr()));
        assert(m4.dividend() == vm::signed(m.guest(b)));
    }
    lemma_pair(m, four, divide, q, r);
    let five = four.push(divide);
    lemma_rest_adds_up(m, m4, m.run(five));
    assert forall|k: u8| k < HOSTED_REGISTERS implies #[trigger] m.run(five).guest(k) == m.guest(
        k,
    ) by {
        assert(m4.guest(k) == m3.guest(k));
        assert(m3.guest(k) == m.guest(k));
    }
    if i.opcode is DIV {
        lemma_finish_pair(i, m, m, five);
    } else {
        lemma_stow(m, five, Reg::Edx, a);
        lemma_finish(i, m, m.run(five), Reg::Edx);
    }
}

proof fn lemma_unsigned_quotient(b: u32, c: u32)
    requires
        c != 0,
    ensures
        vm::word((0 * 0x1_0000_0000 + b as int) / (c as int)) == b / c,
        vm::word((0 * 0x1_0000_0000 + b as int) % (c as int)) == b % c,
{
    assert(0 <= b as int / c as int <= b) by (nonlinear_arith)
        requires
            c != 0,
    ;
    assert(0 <= (b as int) % (c as int) < c) by (nonlinear_arith)
        requires
            c != 0,
    ;
}

proof fn lemma_unsigned_division(i: Instruction, m: Host)
    requires
        emit::compilable(i),
        i.opcode is DIVU || i.opcode is MODU,
        operands_agree(i),
        m.guest(instruction::reg_of(i.op_c)) != 0,
    ensures
        computes(i, m, m.run(AotCompiler::div_mod_listing(i))),
{
    let a = i.op_a;
    let b = instruction::reg_of(i.op_b);
    let c = instruction::reg_of(i.op_c);
    let rc = common::place(c, Reg::Edi, false);
    lemma_divide_start(i, m);
    let three = (Seq::<Line>::empty() + common::fetch(b, Reg::Eax, true) + common::fetch(
        c,
        Reg::Edi,
        false,
    )).push(Line::Op2(3, Op::Mov, Operand::R(Reg::Edx), Operand::I(0)));
    let m3 = m.run(three);
    let divide = Line::Op1(3, Op::Div, Operand::R(rc));
    let q = m.guest(b) / m.guest(c);
    let r = m.guest(b) % m.guest(c);
    assert(m3.after(divide) == m3.set_pair(q, r)) by {
        reveal(Host::after);
        lemma_unsigned_quotient(m.guest(b), m.guest(c));
    }
    lemma_pair(m, three, divide, q, r);
    let four = three.push(divide);
    lemma_rest_adds_up(m, m3, m.run(four));
    assert forall|k: u8| k < HOSTED_REGISTERS implies #[trigger] m.run(four).guest(k) == m.guest(
        k,
    ) by {
        assert(m3.guest(k) == m.guest(k));
    }
    if i.opcode is DIVU {
        lemma_finish_pair(i, m, m, four);
    } else {
        lemma_stow(m, four, Reg::Edx, a);
        lemma_finish(i, m, m.run(four), Reg::Edx);
    }
}

/// What a comparison does.
proof fn lemma_compare(m: Host, code: Seq<Line>, x: Operand, y: Operand)
    ensures
        ({
            let n = m.run(code.push(Line::Op2(3, Op::Cmp, x, y)));
            let was = m.run(code);
            &&& n.gprs == was.gprs
            &&& n.lanes == was.lanes
            &&& n.keeps_the_rest(was)
            &&& n.flags.equal == (was.value(x) == was.value(y))
            &&& n.flags.less == (vm::signed(was.value(x)) < vm::signed(was.value(y)))
            &&& n.flags.below == (was.value(x) < was.value(y))
        }),
{
    reveal(Host::after);
    reveal(Host::keeps_the_rest);
    lemma_run_push(m, code, Line::Op2(3, Op::Cmp, x, y));
}

/// The end of a comparison instruction: the outcome goes to a register as zero or one.
proof fn lemma_outcome(i: Instruction, before: Host, m: Host, code: Seq<Line>)
    requires
        i.op_a < HOSTED_REGISTERS,
        i.opcode is SLT || i.opcode is SLTU,
        m.run(code).keeps_the_rest(before),
        forall|r: u8|
            r < HOSTED_REGISTERS ==> #[trigger] m.run(code).guest(r) == before.guest(r),
        m.run(code).flags.less == (vm::signed(operand_b(before, i)) < vm::signed(
            operand_c(before, i),
        )),
        m.run(code).flags.below == (operand_b(before, i) < operand_c(before, i)),
    ensures
        ({
            let op = if i.opcode is SLT {
                Op::Setl
            } else {
                Op::Setb
            };
            computes(
                i,
                before,
                m.run(
                    code.push(Line::Op1(3, op, Operand::R(Reg::Al))).push(
                        Line::Op2(3, Op::Movzx, Operand::R(Reg::Eax), Operand::R(Reg::Al)),
                    ) + common::stow(Reg::Eax, i.op_a),
                ),
            )
        }),
{
    let op = if i.opcode is SLT {
        Op::Setl
    } else {
        Op::Setb
    };
    let bit: u32 = vm::alu_result(i.opcode, operand_b(before, i), operand_c(before, i)).0;
    let m0 = m.run(code);
    let one = code.push(Line::Op1(3, op, Operand::R(Reg::Al)));
    let m1 = m.run(one);
    let two = one.push(Line::Op2(3, Op::Movzx, Operand::R(Reg::Eax), Operand::R(Reg::Al)));
    let m2 = m.run(two);
    lemma_run_push(m, code, Line::Op1(3, op, Operand::R(Reg::Al)));
    lemma_run_push(m, one, Line::Op2(3, Op::Movzx, Operand::R(Reg::Eax), Operand::R(Reg::Al)));
    assert(m1 == m0.set_byte(Reg::Al, bit)) by {
        reveal(Host::after);
    }
    let kept = m0.gprs[Gpr::Rax];
    lemma_byte(kept, bit);
    assert(m1.value(Operand::R(Reg::Al)) == bit);
    assert(m2 == m1.set(Reg::Eax, bit)) by {
        reveal(Host::after);
    }
    lemma_set(m1, Reg::Eax, bit);
    assert(m1.keeps_the_rest(m0)) by {
        reveal(Host::keeps_the_rest);
    }
    lemma_rest_adds_up(before, m0, m1);
    lemma_rest_adds_up(before, m1, m2);
    assert forall|r: u8| r < HOSTED_REGISTERS implies #[trigger] m2.guest(r) == before.guest(r) by {
        assert(m1.guest(r) == m0.guest(r));
        assert(m0.guest(r) == before.guest(r));
        assert(m2.guest(r) == m1.guest(r));
    }
    lemma_stow(m, two, Reg::Eax, i.op_a);
    lemma_finish(i, before, m2, Reg::Eax);
}

/// The low byte of a register that a bit was written to.
proof fn lemma_byte(kept: u64, bit: u32)
    requires
        bit < 2,
    ensures
        (((kept / 0x100) * 0x100 + bit % 0x100) as u64 as u32) % 0x100 == bit,
{
    let whole = ((kept / 0x100) * 0x100 + bit % 0x100) as u64;
    assert(whole % 0x100 == bit);
    assert((whole as u32) % 0x100 == (whole % 0x100) as u32) by (bit_vector);
}

proof fn lemma_slt(i: Instruction, m: Host)
    requires
        emit::compilable(i),
        i.opcode is SLT || i.opcode is SLTU,
        operands_agree(i),
    ensures
        computes(i, m, m.run(AotCompiler::slt_listing(i))),
{
    let b = instruction::reg_of(i.op_b);
    let c = instruction::reg_of(i.op_c);
    let rb = common::place(b, Reg::Esi, false);
    if i.imm_c {
        let start = Seq::<Line>::empty();
        lemma_run_empty(m);
        let one = start + common::fetch(b, Reg::Esi, false);
        lemma_fetch(m, start, b, Reg::Esi, false);
        lemma_fetched(m, b, Reg::Esi, false);
        let m1 = m.run(one);
        let two = one.push(Line::Op2(3, Op::Cmp, Operand::R(rb), Operand::I(i.op_c as u64)));
        lemma_compare(m, one, Operand::R(rb), Operand::I(i.op_c as u64));
        lemma_rest_adds_up(m, m1, m.run(two));
        assert forall|r: u8| r < HOSTED_REGISTERS implies #[trigger] m.run(two).guest(r) == m.guest(
            r,
        ) by {
            assert(m1.guest(r) == m.guest(r));
        }
        lemma_outcome(i, m, m, two);
    } else {
        lemma_fetch_two(m, b, Reg::Esi, false, c, Reg::Edx);
        let rc = common::place(c, Reg::Edx, false);
        let two = Seq::<Line>::empty() + common::fetch(b, Reg::Esi, false) + common::fetch(
            c,
            Reg::Edx,
            false,
        );
        let m2 = m.run(two);
        let three = two.push(Line::Op2(3, Op::Cmp, Operand::R(rb), Operand::R(rc)));
        lemma_compare(m, two, Operand::R(rb), Operand::R(rc));
        lemma_rest_adds_up(m, m2, m.run(three));
        assert forall|r: u8| r < HOSTED_REGISTERS implies #[trigger] m.run(three).guest(r)
            == m.guest(r) by {
            assert(m2.guest(r) == m.guest(r));
        }
        lemma_outcome(i, m, m, three);
    }
}

proof fn lemma_cloz(i: Instruction, m: Host)
    requires
        emit::compilable(i),
        i.opcode is CLO || i.opcode is CLZ,
        operands_agree(i),
    ensures
        computes(i, m, m.run(AotCompiler::cloz_listing(i))),
{
    let a = i.op_a;
    let b = instruction::reg_of(i.op_b);
    let dst = common::overriding_or(a, Reg::Edi);
    lemma_destination(a, Reg::Edi);
    let start = Seq::<Line>::empty();
    lemma_run_empty(m);
    let force = a != b;
    let one = start + common::fetch(b, dst, force);
    lemma_fetch(m, start, b, dst, force);
    lemma_fetched(m, b, dst, force);
    assert(common::place(b, dst, force) == dst);
    if i.opcode is CLO {
        let two = one.push(Line::Op1(3, Op::Not, Operand::R(dst)));
        lemma_not(m, one, dst);
        lemma_rest_adds_up(m, m.run(one), m.run(two));
        let three = two.push(Line::Op2(3, Op::Lzcnt, Operand::R(dst), Operand::R(dst)));
        lemma_binary(m, two, Op::Lzcnt, dst, Operand::R(dst));
        lemma_rest_adds_up(m, m.run(two), m.run(three));
        lemma_stow(m, three, dst, a);
        lemma_finish(i, m, m.run(three), dst);
    } else {
        let two = one.push(Line::Op2(3, Op::Lzcnt, Operand::R(dst), Operand::R(dst)));
        lemma_binary(m, one, Op::Lzcnt, dst, Operand::R(dst));
        lemma_rest_adds_up(m, m.run(one), m.run(two));
        lemma_stow(m, two, dst, a);
        lemma_finish(i, m, m.run(two), dst);
    }
}

proof fn lemma_alu_work(i: Instruction, m: Host)
    requires
        emit::compilable(i),
        emit::supported(i),
        i.opcode.class() == OpClass::Alu,
        operands_agree(i),
        !host_traps(i, operand_b(m, i), operand_c(m, i)),
    ensures
        computes(i, m, m.run(AotCompiler::alu_work_listing(i))),
{
    match i.opcode {
        Opcode::NOR => lemma_nor(i, m),
        Opcode::SLL | Opcode::SRL | Opcode::SRA | Opcode::ROR => {
            if i.imm_b {
                lemma_shift_numbers(i, m);
            } else if i.imm_c {
                lemma_shift_number(i, m);
            } else if i.opcode is ROR {
                lemma_rotation(i, m);
            } else {
                lemma_shift_registers(i, m);
            }
        },
        Opcode::MULT | Opcode::MULTU => lemma_mult(i, m),
        Opcode::DIV | Opcode::MOD => lemma_signed_division(i, m),
        Opcode::DIVU | Opcode::MODU => lemma_unsigned_division(i, m),
        Opcode::SLT | Opcode::SLTU => lemma_slt(i, m),
        Opcode::CLO | Opcode::CLZ => lemma_cloz(i, m),
        _ => {
            if i.imm_c {
                lemma_base_number(i, m);
            } else if i.op_a == instruction::reg_of(i.op_c) {
                lemma_base_same(i, m);
            } else {
                lemma_base_registers(i, m);
            }
        },
    }
}

/// The code of an arithmetic or logic instruction, metered or not, does what it does: run on the
/// host, it leaves the result of the instruction in the destination, and changes no other guest
/// register and nothing that the run lives on.
///
/// Two sets of inputs are left out. Where the destination of a negated disjunction, or of a
/// rotation by a register, is held in a general-purpose register and is the last operand too, the
/// code overwrites that operand before it reads it. And the host traps on the one signed division
/// whose quotient does not fit a word.
pub proof fn alu_code_computes_the_instruction(compiler: &AotCompiler, i: Instruction, m: Host)
    requires
        emit::compilable(i),
        emit::supported(i),
        i.opcode.class() == OpClass::Alu,
        operands_agree(i),
        !host_traps(i, operand_b(m, i), operand_c(m, i)),
    ensures
        computes(i, m, m.run(compiler.alu_listing(i))),
{
    if compiler.executor_mode is Checkpoint {
        let front = AotCompiler::alu_access_listing(i);
        let work = AotCompiler::alu_work_listing(i);
        let x = m.run(front);
        let n = m.run(front + work);
        metering::metering_disturbs_nothing(compiler, m, i);
        metering::lemma_undisturbed(x, m);
        runs_compose(m, front, work);
        assert(operand_b(x, i) == operand_b(m, i));
        assert(operand_c(x, i) == operand_c(m, i));
        lemma_alu_work(i, x);
        lemma_rest_adds_up(m, x, n);
        assert forall|a: u8, b: u8| n.keeps_guests_but(x, a, b) implies #[trigger]
            n.keeps_guests_but(m, a, b) by {
            assert forall|r: u8|
                r < HOSTED_REGISTERS && r != a && r != b implies #[trigger] n.guest(r) == m.guest(
                r,
            ) by {
                assert(x.guest(r) == m.guest(r));
            }
        }
    } else {
        lemma_alu_work(i, m);
    }
}

/// The test of a branch finds out whether it is taken; it changes no guest register and nothing
/// that the run lives on.
proof fn lemma_branch_test(i: Instruction, m: Host)
    requires
        emit::compilable(i),
        i.opcode.class() == OpClass::Branch,
    ensures
        ({
            let n = m.run(AotCompiler::branch_test_listing(i));
            &&& n.jumps(AotCompiler::branch_jump(i.opcode)) == vm::takes_branch(
                i.opcode,
                m.guest(i.op_a),
                m.guest(instruction::reg_of(i.op_b)),
            )
            &&& n.keeps_the_rest(m)
            &&& forall|r: u8| r < HOSTED_REGISTERS ==> #[trigger] n.guest(r) == m.guest(r)
        }),
{
    let a = i.op_a;
    let b = instruction::reg_of(i.op_b);
    let ra = common::place(a, Reg::Edi, false);
    if i.opcode.one_operand() {
        let start = Seq::<Line>::empty();
        lemma_run_empty(m);
        let one = start + common::fetch(a, Reg::Edi, false);
        lemma_fetch(m, start, a, Reg::Edi, false);
        lemma_fetched(m, a, Reg::Edi, false);
        let m1 = m.run(one);
        let line = Line::Op2(3, Op::Test, Operand::R(ra), Operand::R(ra));
        lemma_run_push(m, one, line);
        let n = m.run(one.push(line));
        let x = m.guest(a);
        assert(x & x == x) by (bit_vector);
        assert(n.gprs == m1.gprs && n.lanes == m1.lanes && n.words == m1.words && n.flags.equal == (x == 0)
            && n.flags.less == (vm::signed(x) < 0) && n.flags.negative == (vm::signed(x) < 0)) by {
            reveal(Host::after);
        }
        assert(n.keeps_the_rest(m1)) by {
            reveal(Host::keeps_the_rest);
        }
        lemma_rest_adds_up(m, m1, n);
        assert forall|r: u8| r < HOSTED_REGISTERS implies #[trigger] n.guest(r) == m.guest(r) by {
            assert(m1.guest(r) == m.guest(r));
        }
    } else {
        lemma_fetch_two(m, a, Reg::Edi, false, b, Reg::Esi);
        let rb = common::place(b, Reg::Esi, false);
        let two = Seq::<Line>::empty() + common::fetch(a, Reg::Edi, false) + common::fetch(
            b,
            Reg::Esi,
            false,
        );
        let m2 = m.run(two);
        lemma_compare(m, two, Operand::R(ra), Operand::R(rb));
        let n = m.run(two.push(Line::Op2(3, Op::Cmp, Operand::R(ra), Operand::R(rb))));
        lemma_rest_adds_up(m, m2, n);
        assert forall|r: u8| r < HOSTED_REGISTERS implies #[trigger] n.guest(r) == m.guest(r) by {
            assert(m2.guest(r) == m.guest(r));
        }
    }
}

/// The code of a branch, metered or not, jumps exactly when the branch is taken, and to where it
/// leads; it changes no guest register and nothing that the run lives on.
pub proof fn branch_code_jumps_when_the_branch_is_taken(
    compiler: &AotCompiler,
    i: Instruction,
    pc: u32,
    m: Host,
)
    requires
        emit::compilable(i),
        i.opcode.class() == OpClass::Branch,
    ensures
        ({
            let jump = AotCompiler::branch_jump(i.opcode);
            let target = vm::word(vm::word(pc + 4) + i.op_c);
            let work = compiler.branch_access_listing(i) + AotCompiler::branch_test_listing(i);
            let n = m.run(work);
            &&& compiler.branch_listing(i, pc) == work.push(
                Line::Op1(3, jump, Operand::To(Label::Pc(target))),
            )
            &&& n.jumps(jump) == vm::takes_branch(
                i.opcode,
                m.guest(i.op_a),
                m.guest(instruction::reg_of(i.op_b)),
            )
            &&& n.keeps_the_rest(m)
            &&& forall|r: u8| r < HOSTED_REGISTERS ==> #[trigger] n.guest(r) == m.guest(r)
        }),
{
    let front = compiler.branch_access_listing(i);
    let test = AotCompiler::branch_test_listing(i);
    let x = m.run(front);
    let n = m.run(front + test);
    metering::metering_disturbs_nothing(compiler, m, i);
    metering::lemma_undisturbed(x, m);
    runs_compose(m, front, test);
    lemma_branch_test(i, x);
    lemma_rest_adds_up(m, x, n);
    assert(x.guest(i.op_a) == m.guest(i.op_a));
    assert forall|r: u8| r < HOSTED_REGISTERS implies #[trigger] n.guest(r) == m.guest(r) by {
        assert(x.guest(r) == m.guest(r));
    }
}

/// The code that leaves the return address of a jump in its first operand.
pub open spec fn linking(i: Instruction, pc: u32) -> Seq<Line> {
    if i.op_a != 0 {
        let back = vm::jump_result(i.opcode, vm::word(pc + 4), i.op_b).0;
        Seq::<Line>::empty().push(
            Line::Op2(3, Op::Mov, Operand::R(Reg::Edi), Operand::I(back as u64)),
        ) + common::stow(Reg::Edi, i.op_a)
    } else {
        Seq::empty()
    }
}

/// The code that goes to the guest address in a register, by the table of code addresses.
pub open spec fn through_the_table(address: Reg) -> Seq<Line> {
    Seq::<Line>::empty().push(
        Line::Op2(3, Op::Lea, Operand::R(Reg::Rdx), Operand::At(Label::PcTable)),
    ).push(
        Line::Op2(
            3,
            Op::Movsxd,
            Operand::R(Reg::Rdi),
            Operand::M(Size::Implied, Reg::Rdx, Shift::Index(address)),
        ),
    ).push(Line::Op2(3, Op::Add, Operand::R(Reg::Rdi), Operand::R(Reg::Rdx))).push(
        Line::Op1(3, Op::Jmp, Operand::R(Reg::Rdi)),
    )
}

/// The code of a jump up to the jump itself.
pub open spec fn jump_work(i: Instruction, pc: u32) -> Seq<Line> {
    if AotCompiler::reads_target_early(i) {
        common::fetch(instruction::reg_of(i.op_b), Reg::Esi, true) + linking(i, pc)
    } else if i.opcode is Jumpi {
        linking(i, pc)
    } else {
        linking(i, pc) + common::fetch(instruction::reg_of(i.op_b), Reg::Esi, false)
    }
}

/// Whether a state is what a jump should leave: the return address is in the first operand, unless
/// that is the register that is always zero; no other guest register has changed, nor what the run
/// lives on.
pub open spec fn links(i: Instruction, pc: u32, before: Host, after: Host) -> bool {
    &&& after.keeps_the_rest(before)
    &&& after.keeps_guests_but(before, i.op_a, i.op_a)
    &&& after.guest(i.op_a) == if i.op_a == 0 {
        before.guest(0)
    } else {
        vm::jump_result(i.opcode, vm::word(pc + 4), i.op_b).0
    }
}

/// Where a jump to a register finds its target.
pub open spec fn target_holder(i: Instruction) -> Reg {
    common::place(
        instruction::reg_of(i.op_b),
        Reg::Esi,
        AotCompiler::reads_target_early(i),
    )
}

/// The code that links leaves the return address and nothing else.
proof fn lemma_linking(i: Instruction, pc: u32, m: Host)
    requires
        emit::compilable(i),
        i.opcode.class() == OpClass::Jump,
    ensures
        links(i, pc, m, m.run(linking(i, pc))),
        m.run(linking(i, pc)).low(Gpr::Rsi) == m.low(Gpr::Rsi),
{
    let a = i.op_a;
    let result = vm::jump_result(i.opcode, vm::word(pc + 4), i.op_b);
    let link = linking(i, pc);
    let none = Seq::<Line>::empty();
    let x = m.run(link);
    lemma_run_empty(m);
    if a != 0 {
        let line = Line::Op2(3, Op::Mov, Operand::R(Reg::Edi), Operand::I(result.0 as u64));
        lemma_binary(m, none, Op::Mov, Reg::Edi, Operand::I(result.0 as u64));
        let w = m.run(none.push(line));
        assert(w.low(Gpr::Rdi) == result.0);
        assert(w.low(Gpr::Rsi) == m.low(Gpr::Rsi));
        lemma_stow(m, none.push(line), Reg::Edi, a);
        lemma_stowed(w, Reg::Edi, a);
        lemma_rest_adds_up(m, w, x);
        assert(x.low(Gpr::Rsi) == w.low(Gpr::Rsi)) by {
            common::places_are_distinct(a, 0);
        }
        assert forall|r: u8| r < HOSTED_REGISTERS && r != a implies #[trigger] x.guest(r)
            == m.guest(r) by {
            assert(common::overriding(r) != Some(Reg::Edi));
            assert(w.guest(r) == m.guest(r));
        }
    } else {
        assert(x.keeps_the_rest(m)) by {
            reveal(Host::keeps_the_rest);
        }
    }
}

proof fn lemma_jump_work(i: Instruction, pc: u32, m: Host)
    requires
        emit::compilable(i),
        i.opcode.class() == OpClass::Jump,
    ensures
        ({
            let b = instruction::reg_of(i.op_b);
            let n = m.run(jump_work(i, pc));
            &&& links(i, pc, m, n)
            &&& i.opcode is Jump ==> n.low(target_holder(i).gpr()) == m.guest(b)
        }),
{
    let a = i.op_a;
    let b = instruction::reg_of(i.op_b);
    let link = linking(i, pc);
    let none = Seq::<Line>::empty();
    lemma_run_empty(m);
    if AotCompiler::reads_target_early(i) {
        let find = common::fetch(b, Reg::Esi, true);
        assert(none + find =~= find);
        lemma_fetch(m, none, b, Reg::Esi, true);
        lemma_fetched(m, b, Reg::Esi, true);
        let y = m.run(find);
        runs_compose(m, find, link);
        lemma_linking(i, pc, y);
        let n = m.run(find + link);
        lemma_rest_adds_up(m, y, n);
        assert forall|r: u8| r < HOSTED_REGISTERS && r != a implies #[trigger] n.guest(r)
            == m.guest(r) by {
            assert(y.guest(r) == m.guest(r));
        }
        assert(y.low(Gpr::Rsi) == m.guest(b));
    } else {
        lemma_jump_work_in_order(i, pc, m);
    }
}

/// A jump that links before it reads its target.
proof fn lemma_jump_work_in_order(i: Instruction, pc: u32, m: Host)
    requires
        emit::compilable(i),
        i.opcode.class() == OpClass::Jump,
        !AotCompiler::reads_target_early(i),
    ensures
        ({
            let b = instruction::reg_of(i.op_b);
            let n = m.run(jump_work(i, pc));
            &&& links(i, pc, m, n)
            &&& i.opcode is Jump ==> n.low(target_holder(i).gpr()) == m.guest(b)
        }),
{
    let a = i.op_a;
    let b = instruction::reg_of(i.op_b);
    let link = linking(i, pc);
    let x = m.run(link);
    lemma_linking(i, pc, m);
    if !(i.opcode is Jumpi) {
        let work = link + common::fetch(b, Reg::Esi, false);
        lemma_fetch(m, link, b, Reg::Esi, false);
        lemma_fetched(x, b, Reg::Esi, false);
        let n = m.run(work);
        lemma_rest_adds_up(m, x, n);
        assert forall|r: u8| r < HOSTED_REGISTERS && r != a implies #[trigger] n.guest(r)
            == m.guest(r) by {
            assert(x.guest(r) == m.guest(r));
        }
        assert(n.guest(a) == x.guest(a));
    }
}

/// What the code of a jump is made up of.
proof fn lemma_jump_listing(i: Instruction, pc: u32)
    requires
        emit::compilable(i),
        i.opcode.class() == OpClass::Jump,
    ensures
        ({
            let held = target_holder(i);
            let work = jump_work(i, pc);
            let target = vm::jump_result(i.opcode, vm::word(pc + 4), i.op_b).1;
            AotCompiler::jump_work_listing(i, pc) =~= if i.opcode is Jump {
                work + through_the_table(Reg::of(held.gpr(), Width::W64))
            } else {
                work.push(Line::Op1(3, Op::Jmp, Operand::To(Label::Pc(target))))
            }
        }),
{
}

/// The code of a jump, metered or not, leaves the return address in its first operand, unless that
/// is the register that is always zero, changes no other guest register and nothing that the run
/// lives on, and goes to where the jump leads.
pub proof fn jump_code_links_and_jumps(compiler: &AotCompiler, i: Instruction, pc: u32, m: Host)
    requires
        emit::compilable(i),
        i.opcode.class() == OpClass::Jump,
    ensures
        ({
            let b = instruction::reg_of(i.op_b);
            let held = target_holder(i);
            let work = compiler.jump_access_listing(i) + jump_work(i, pc);
            let n = m.run(work);
            let target = vm::jump_result(i.opcode, vm::word(pc + 4), i.op_b).1;
            &&& links(i, pc, m, n)
            &&& if i.opcode is Jump {
                &&& n.low(held.gpr()) == m.guest(b)
                &&& compiler.jump_listing(i, pc) == work + through_the_table(
                    Reg::of(held.gpr(), Width::W64),
                )
            } else {
                compiler.jump_listing(i, pc) == work.push(
                    Line::Op1(3, Op::Jmp, Operand::To(Label::Pc(target))),
                )
            }
        }),
{
    let b = instruction::reg_of(i.op_b);
    let held = target_holder(i);
    let front = compiler.jump_access_listing(i);
    let work = front + jump_work(i, pc);
    let target = vm::jump_result(i.opcode, vm::word(pc + 4), i.op_b).1;
    let x = m.run(front);
    let n = m.run(work);
    metering::metering_disturbs_nothing(compiler, m, i);
    metering::lemma_undisturbed(x, m);
    runs_compose(m, front, jump_work(i, pc));
    lemma_jump_work(i, pc, x);
    lemma_rest_adds_up(m, x, n);
    assert forall|r: u8| r < HOSTED_REGISTERS && r != i.op_a implies #[trigger] n.guest(r)
        == m.guest(r) by {
        assert(x.guest(r) == m.guest(r));
    }
    assert(x.guest(0) == m.guest(0));
    if i.opcode is Jump {
        assert(x.guest(b) == m.guest(b));
    }
    lemma_jump_listing(i, pc);
    let table = through_the_table(Reg::of(held.gpr(), Width::W64));
    let last = Line::Op1(3, Op::Jmp, Operand::To(Label::Pc(target)));
    assert(front + (jump_work(i, pc) + table) =~= work + table);
    assert(front + jump_work(i, pc).push(last) =~= work.push(last));
}

/// The registers that a call may change.
pub open spec fn internal_registers() -> Seq<Reg> {
    seq![
        Reg::Rcx,
        Reg::Rdx,
        Reg::Rsi,
        Reg::Rdi,
        Reg::R8,
        Reg::R9,
        Reg::R10,
        Reg::R11,
        Reg::Rax,
    ]
}

/// The registers that belong to the caller.
pub open spec fn external_registers() -> Seq<Reg> {
    seq![Reg::Rbp, Reg::Rbx, Reg::R12, Reg::R13, Reg::R14, Reg::R15]
}

/// Code that saves registers.
pub open spec fn saves(code: Seq<Line>, registers: Seq<Reg>) -> bool {
    code == registers.map_values(|reg: Reg| Line::Op1(4, Op::Push, Operand::R(reg)))
}

/// Code that restores registers, the last one saved first.
pub open spec fn restores(code: Seq<Line>, registers: Seq<Reg>) -> bool {
    code == registers.reverse().map_values(|reg: Reg| Line::Op1(4, Op::Pop, Operand::R(reg)))
}

/// The registers that are saved before a call, or when the run starts, are restored after it in
/// the opposite order. Together they are all the registers of the host but for the stack pointer,
/// so that a run leaves its caller as it found it.
pub proof fn saved_registers_are_restored(gpr: Gpr)
    ensures
        saves(AotCompiler::push_internal_registers_listing(), internal_registers()),
        restores(AotCompiler::pop_internal_registers_listing(), internal_registers()),
        saves(AotCompiler::push_external_registers_listing(), external_registers()),
        restores(AotCompiler::pop_external_registers_listing(), external_registers()),
        internal_registers().contains(Reg::of(gpr, Width::W64)) || external_registers().contains(
            Reg::of(gpr, Width::W64),
        ),
{
    assert(AotCompiler::push_internal_registers_listing() =~= internal_registers().map_values(
        |reg: Reg| Line::Op1(4, Op::Push, Operand::R(reg)),
    ));
    assert(AotCompiler::pop_internal_registers_listing()
        =~= internal_registers().reverse().map_values(
        |reg: Reg| Line::Op1(4, Op::Pop, Operand::R(reg)),
    ));
    assert(AotCompiler::push_external_registers_listing() =~= external_registers().map_values(
        |reg: Reg| Line::Op1(4, Op::Push, Operand::R(reg)),
    ));
    assert(AotCompiler::pop_external_registers_listing()
        =~= external_registers().reverse().map_values(
        |reg: Reg| Line::Op1(4, Op::Pop, Operand::R(reg)),
    ));
    let i = internal_registers();
    let e = external_registers();
    assert(i[0] is Rcx && i[1] is Rdx && i[2] is Rsi && i[3] is Rdi && i[4] is R8 && i[5] is R9
        && i[6] is R10 && i[7] is R11 && i[8] is Rax);
    assert(e[0] is Rbp && e[1] is Rbx && e[2] is R12 && e[3] is R13 && e[4] is R14 && e[5] is R15);
}

proof fn lemma_in_either(a: Seq<Line>, b: Seq<Line>, line: Line)
    ensures
        a.contains(line) || b.contains(line) ==> (a + b).contains(line),
        (a + b).contains(line) ==> a.contains(line) || b.contains(line),
{
    if a.contains(line) {
        let k = choose|k: int| 0 <= k < a.len() && a[k] == line;
        assert((a + b)[k] == line);
    }
    if b.contains(line) {
        let k = choose|k: int| 0 <= k < b.len() && b[k] == line;
        assert((a + b)[a.len() + k] == line);
    }
    if (a + b).contains(line) {
        let k = choose|k: int| 0 <= k < (a + b).len() && (a + b)[k] == line;
        if k < a.len() {
            assert(a[k] == line);
        } else {
            assert(b[k - a.len()] == line);
        }
    }
}

proof fn lemma_heads(c: &AotCompiler, metered: bool, pc: u32)
    ensures
        c.head(metered, pc).contains(Line::Here(Label::Pc(pc))),
        c.slot_head(metered, pc).contains(Line::Here(Label::Pc(pc))),
{
    assert(c.head(metered, pc)[0] == Line::Here(Label::Pc(pc)));
    assert(c.slot_head(metered, pc)[0] == Line::Here(Label::Pc(pc)));
}

proof fn lemma_step_label(c: &AotCompiler, metered: bool, i: int)
    requires
        0 <= i < c.program.instructions@.len(),
    ensures
        c.step(metered, i).contains(Line::Here(Label::Pc(c.pc_of(i)))),
        pure::delays(c.program.instructions@[i]) ==> c.step(metered, i).contains(
            Line::Here(Label::Pc(c.pc_of(i + 1))),
        ),
{
    reveal(AotCompiler::step);
    let here = Line::Here(Label::Pc(c.pc_of(i)));
    lemma_heads(c, metered, c.pc_of(i));
    let head = c.head(metered, c.pc_of(i));
    if pure::delays(c.program.instructions@[i]) {
        let slot = c.slot_head(metered, c.pc_of(i + 1));
        let behind = Line::Here(Label::Pc(c.pc_of(i + 1)));
        let first = c.instruction_listing(c.program.instructions@[i + 1], c.pc_of(i + 1));
        let second = c.instruction_listing(c.program.instructions@[i], c.pc_of(i));
        lemma_heads(c, metered, c.pc_of(i + 1));
        lemma_in_either(head, slot, here);
        lemma_in_either(head, slot, behind);
        lemma_in_either(head + slot, first, here);
        lemma_in_either(head + slot, first, behind);
        lemma_in_either(head + slot + first, second, here);
        lemma_in_either(head + slot + first, second, behind);
    } else {
        lemma_in_either(
            head,
            c.instruction_listing(c.program.instructions@[i], c.pc_of(i)),
            here,
        );
    }
}

proof fn lemma_body_labels(c: &AotCompiler, metered: bool, from: int, i: int)
    requires
        0 <= from <= i < c.program.instructions@.len(),
        pure::slots_exist(c.program.instructions@, from),
    ensures
        c.body(metered, from).contains(Line::Here(Label::Pc(c.pc_of(i)))),
    decreases c.program.instructions@.len() - from,
{
    let here = Line::Here(Label::Pc(c.pc_of(i)));
    let next = if pure::delays(c.program.instructions@[from]) {
        from + 2
    } else {
        from + 1
    };
    lemma_step_label(c, metered, from);
    lemma_in_either(c.step(metered, from), c.body(metered, next), here);
    if i >= next {
        lemma_body_labels(c, metered, next, i);
    }
}

proof fn lemma_entries(base: int, n: int, pc: u32)
    requires
        pure::entries(base, n).contains(Line::Entry(pc)),
    ensures
        exists|k: int| 0 <= k < n && pc == (#[trigger] (base + k * 4)) as u32,
    decreases n,
{
    if n > 0 {
        let whole = pure::entries(base, n);
        let k = choose|k: int| 0 <= k < whole.len() && whole[k] == Line::Entry(pc);
        if k < whole.len() - 1 {
            assert(pure::entries(base, n - 1)[k] == Line::Entry(pc));
            lemma_entries(base, n - 1, pc);
        } else {
            assert(pc == (base + (n - 1) * 4) as u32);
        }
    }
}

proof fn lemma_low_labels(n: int, k: int)
    requires
        0 <= k < n,
    ensures
        pure::low_labels(n).contains(Line::Here(Label::Pc((0 + k * 4) as u32))),
    decreases n,
{
    let whole = pure::low_labels(n);
    if k == n - 1 {
        assert(whole[whole.len() - 1] == Line::Here(Label::Pc((k * 4) as u32)));
    } else {
        lemma_low_labels(n - 1, k);
        let here = Line::Here(Label::Pc((0 + k * 4) as u32));
        let rest = pure::low_labels(n - 1);
        let j = choose|j: int| 0 <= j < rest.len() && rest[j] == here;
        assert(whole[j] == here);
    }
}

/// Every address in the table of code addresses is the label of some code, so that a jump through
/// the table leads somewhere.
pub proof fn every_table_entry_has_its_code(c: &AotCompiler, metered: bool, pc: u32)
    requires
        c.compiles(),
        c.table().contains(Line::Entry(pc)),
    ensures
        (pure::low_labels(c.program.pc_base as int / 4) + c.body(metered, 0)).contains(
            Line::Here(Label::Pc(pc)),
        ),
{
    let here = Line::Here(Label::Pc(pc));
    let below = c.program.pc_base as int / 4;
    let n = c.program.instructions@.len() as int;
    let start = seq![Line::Directive(".section .rodata"), Line::Here(Label::PcTable)];
    let low = pure::entries(0, below);
    let high = pure::entries(c.program.pc_base as int, n);
    lemma_in_either(start, low, Line::Entry(pc));
    lemma_in_either(start + low, high, Line::Entry(pc));
    lemma_in_either(pure::low_labels(below), c.body(metered, 0), here);
    if high.contains(Line::Entry(pc)) {
        lemma_entries(c.program.pc_base as int, n, pc);
        let k = choose|k: int|
            0 <= k < n && pc == (#[trigger] (c.program.pc_base as int + k * 4)) as u32;
        lemma_body_labels(c, metered, 0, k);
    } else {
        lemma_entries(0, below, pc);
        let k = choose|k: int| 0 <= k < below && pc == (#[trigger] (0 + k * 4)) as u32;
        lemma_low_labels(below, k);
    }
}

} // verus!
