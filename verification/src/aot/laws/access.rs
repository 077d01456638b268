//! The code of loads and stores does what the instructions do.
use vstd::prelude::*;

use crate::aot::common;
use crate::aot::common::HOSTED_REGISTERS;
use crate::aot::emit;
use crate::aot::host::{Gpr, Label, Line, Op, Operand, Reg, Shift, Size, Spot, Width};
use crate::aot::laws;
use crate::aot::laws::flow;
use crate::aot::laws::metering;
use crate::aot::laws::Host;
use crate::aot::AotCompiler;
use crate::instruction;
use crate::instruction::Instruction;
use crate::opcode::{OpClass, Opcode};
use crate::vm;

verus! {

/// The state after the offset within a word was taken.
pub open spec fn asked(m: Host) -> Host {
    m.after(Line::Op2(3, Op::And, Operand::R(Reg::Eax), Operand::I(3)))
}

/// The state after the offset was compared.
pub open spec fn compared(m: Host, j: u64) -> Host {
    m.after(Line::Op2(3, Op::Cmp, Operand::R(Reg::Eax), Operand::I(j)))
}

/// The state in which a case starts.
pub open spec fn dispatched(m: Host, c: u32) -> Host {
    let x = compared(asked(m), 0);
    if c == 0 {
        x
    } else if c == 1 {
        compared(x, 1)
    } else {
        compared(compared(x, 1), 2)
    }
}

/// The parts of a state but for the scratch registers and the flags are the same.
pub open spec fn only_scratch(n: Host, m: Host) -> bool {
    &&& n.lanes == m.lanes
    &&& forall|g: Gpr| !laws::is_scratch(g) ==> #[trigger] n.gprs[g] == m.gprs[g]
}

proof fn lemma_offsets(v: u32)
    ensures
        v & 3 == v % 4,
        v & 0xffff_fffc == v - v % 4,
        (v & 3) < 4,
{
    assert(v & 3 == v % 4 && v & 0xffff_fffc == v - v % 4 && (v & 3) < 4) by (bit_vector);
}

proof fn lemma_shift_counts()
    ensures
        8u32 & 0x1f == 8,
        16u32 & 0x1f == 16,
        24u32 & 0x1f == 24,
{
    assert(8u32 & 0x1f == 8 && 16u32 & 0x1f == 16 && 24u32 & 0x1f == 24) by (bit_vector);
}

proof fn lemma_either_order(x: u32, y: u32)
    ensures
        x | y == y | x,
{
    assert(x | y == y | x) by (bit_vector);
}

proof fn lemma_dispatched(m: Host, c: u32)
    requires
        c == m.low(Gpr::Rax) % 4,
    ensures
        dispatched(m, c).gprs == m.gprs.insert(Gpr::Rax, c as u64),
        dispatched(m, c).lanes == m.lanes,
        dispatched(m, c).words == m.words,
{
    reveal(Host::after);
    lemma_offsets(m.low(Gpr::Rax));
}

/// The lines that find the case.
pub open spec fn finds_the_case(b: Seq<Line>, l0: Label, l1: Label, l2: Label) -> bool {
    &&& b.len() > 7
    &&& b[0] == Line::Op2(3, Op::And, Operand::R(Reg::Eax), Operand::I(3))
    &&& b[1] == Line::Op2(3, Op::Cmp, Operand::R(Reg::Eax), Operand::I(0))
    &&& b[2] == Line::Op1(3, Op::Je, Operand::To(l0))
    &&& b[3] == Line::Op2(3, Op::Cmp, Operand::R(Reg::Eax), Operand::I(1))
    &&& b[4] == Line::Op1(3, Op::Je, Operand::To(l1))
    &&& b[5] == Line::Op2(3, Op::Cmp, Operand::R(Reg::Eax), Operand::I(2))
    &&& b[6] == Line::Op1(3, Op::Je, Operand::To(l2))
}

/// A block that goes to one of four cases.
proof fn lemma_dispatch(
    b: Seq<Line>,
    m: Host,
    l0: Label,
    l1: Label,
    l2: Label,
    target: int,
    n: Host,
    k: nat,
)
    requires
        finds_the_case(b, l0, l1, l2),
        ({
            let c = m.low(Gpr::Rax) % 4;
            &&& 0 <= target < b.len()
            &&& c == 0 ==> b[target] == Line::Here(l0)
            &&& c == 1 ==> b[target] == Line::Here(l1)
            &&& c == 2 ==> b[target] == Line::Here(l2)
            &&& c == 3 ==> target == 7
            &&& flow::leads(b, dispatched(m, c), target, n, b.len() as int, k)
        }),
    ensures
        flow::executes(b, m, n),
{
    reveal(Host::after);
    let v = m.low(Gpr::Rax);
    let c = v % 4;
    let end = b.len() as int;
    lemma_offsets(v);
    let x = asked(m);
    let x0 = compared(x, 0);
    let x1 = compared(x0, 1);
    let x2 = compared(x1, 2);
    assert(x.value(Operand::R(Reg::Eax)) == c);
    assert(x0.value(Operand::R(Reg::Eax)) == c);
    assert(x1.value(Operand::R(Reg::Eax)) == c);
    assert(x0.flags.equal == (c == 0));
    assert(x1.flags.equal == (c == 1));
    assert(x2.flags.equal == (c == 2));
    if c == 0 {
        flow::lemma_step(b, x0, 2, x0, target, n, end, k);
        flow::lemma_step(b, x, 1, x0, 2, n, end, k + 1);
        flow::lemma_step(b, m, 0, x, 1, n, end, k + 2);
    } else if c == 1 {
        flow::lemma_step(b, x1, 4, x1, target, n, end, k);
        flow::lemma_step(b, x0, 3, x1, 4, n, end, k + 1);
        flow::lemma_step(b, x0, 2, x0, 3, n, end, k + 2);
        flow::lemma_step(b, x, 1, x0, 2, n, end, k + 3);
        flow::lemma_step(b, m, 0, x, 1, n, end, k + 4);
    } else {
        flow::lemma_step(b, x2, 6, x2, target, n, end, k);
        flow::lemma_step(b, x1, 5, x2, 6, n, end, k + 1);
        flow::lemma_step(b, x1, 4, x1, 5, n, end, k + 2);
        flow::lemma_step(b, x0, 3, x1, 4, n, end, k + 3);
        flow::lemma_step(b, x0, 2, x0, 3, n, end, k + 4);
        flow::lemma_step(b, x, 1, x0, 2, n, end, k + 5);
        flow::lemma_step(b, m, 0, x, 1, n, end, k + 6);
    }
}

/// A case: a label, plain lines, and the end of the block, which is jumped to or follows.
proof fn lemma_case(b: Seq<Line>, x: Host, at: int, lines: Seq<Line>, end: Label) -> (k: nat)
    requires
        0 <= at,
        at + lines.len() + 1 < b.len(),
        b[at] is Here,
        b.subrange(at + 1, at + 1 + lines.len()) == lines,
        flow::all_plain(lines),
        b[b.len() - 1] == Line::Here(end),
        ({
            let next = at + 1 + lines.len();
            next == b.len() - 1 || b[next] == Line::Op1(3, Op::Jmp, Operand::To(end))
        }),
    ensures
        flow::leads(b, x, at, x.run(lines), b.len() as int, k),
{
    reveal(Host::after);
    let n = x.run(lines);
    let len = b.len() as int;
    let next = at + 1 + lines.len();
    assert(flow::leads(b, n, len, n, len, 0));
    flow::lemma_step(b, n, len - 1, n, len, n, len, 0);
    if next == len - 1 {
        flow::lemma_straight(b, x, at + 1, lines, n, len, 1);
        flow::lemma_step(b, x, at, x, at + 1, n, len, 1 + lines.len());
        2 + lines.len()
    } else {
        flow::lemma_step(b, n, next, n, len - 1, n, len, 1);
        flow::lemma_straight(b, x, at + 1, lines, n, len, 2);
        flow::lemma_step(b, x, at, x, at + 1, n, len, 2 + lines.len());
        3 + lines.len()
    }
}

/// The lines that merge a loaded word with the old value of the register.
pub open spec fn merging(mask: u32, op: Op, count: u64) -> Seq<Line> {
    Seq::<Line>::empty().push(
        Line::Op2(3, Op::And, Operand::R(Reg::Edx), Operand::Mask(mask)),
    ).push(Line::Op2(3, op, Operand::R(Reg::Esi), Operand::I(count))).push(
        Line::Op2(3, Op::Or, Operand::R(Reg::Esi), Operand::R(Reg::Edx)),
    )
}

/// What those lines do.
proof fn lemma_merging(x: Host, mask: u32, op: Op, count: u64)
    requires
        op is Shl || op is Shr,
        count == 8 || count == 16 || count == 24,
    ensures
        flow::all_plain(merging(mask, op, count)),
        ({
            let n = x.run(merging(mask, op, count));
            let moved = if op is Shl {
                x.low(Gpr::Rsi) << (count as u32)
            } else {
                x.low(Gpr::Rsi) >> (count as u32)
            };
            &&& n.low(Gpr::Rsi) == (x.low(Gpr::Rdx) & mask) | moved
            &&& only_scratch(n, x)
            &&& n.words == x.words
        }),
{
    reveal(Host::after);
    lemma_shift_counts();
    let none = Seq::<Line>::empty();
    let l1 = Line::Op2(3, Op::And, Operand::R(Reg::Edx), Operand::Mask(mask));
    let l2 = Line::Op2(3, op, Operand::R(Reg::Esi), Operand::I(count));
    let l3 = Line::Op2(3, Op::Or, Operand::R(Reg::Esi), Operand::R(Reg::Edx));
    laws::lemma_run_empty(x);
    laws::lemma_run_push(x, none, l1);
    laws::lemma_run_push(x, none.push(l1), l2);
    laws::lemma_run_push(x, none.push(l1).push(l2), l3);
    let y = x.run(none.push(l1));
    let z = x.run(none.push(l1).push(l2));
    assert(y.low(Gpr::Rdx) == x.low(Gpr::Rdx) & mask);
    assert(y.low(Gpr::Rsi) == x.low(Gpr::Rsi));
    assert(z.low(Gpr::Rdx) == y.low(Gpr::Rdx));
    lemma_either_order(z.low(Gpr::Rsi), z.low(Gpr::Rdx));
}

/// Merging the right part of a word.
proof fn lemma_merge_right(pc: u32, m: Host) -> (n: Host)
    ensures
        flow::executes(AotCompiler::load_right_listing(pc, Reg::Esi, Reg::Edx), m, n),
        n.low(Gpr::Rsi) == vm::loaded(
            Opcode::LWR,
            m.low(Gpr::Rax),
            m.low(Gpr::Rsi),
            m.low(Gpr::Rdx),
        ),
        only_scratch(n, m),
        n.words == m.words,
{
    let b = AotCompiler::load_right_listing(pc, Reg::Esi, Reg::Edx);
    let c = m.low(Gpr::Rax) % 4;
    let x = dispatched(m, c);
    let end = Label::Within(pc, Spot::LwrEnd);
    let case1 = Label::Within(pc, Spot::LwrCase1);
    let case2 = Label::Within(pc, Spot::LwrCase2);
    lemma_dispatched(m, c);
    assert(b.len() == 23);
    assert(finds_the_case(b, end, case1, case2));
    if c == 0 {
        assert(b[22] == Line::Here(end));
        assert(flow::steps(b, x, 22, x, 23)) by {
            reveal(Host::after);
        }
        assert(flow::leads(b, x, 23, x, 23, 0));
        flow::lemma_step(b, x, 22, x, 23, x, 23, 0);
        lemma_dispatch(b, m, end, case1, case2, 22, x, 1);
        x
    } else {
        let (at, mask, count) = if c == 1 {
            (17int, 0xff00_0000u32, 8u64)
        } else if c == 2 {
            (12int, 0xffff_0000u32, 16u64)
        } else {
            (7int, 0xffff_ff00u32, 24u64)
        };
        let lines = merging(mask, Op::Shr, count);
        lemma_merging(x, mask, Op::Shr, count);
        assert(b.subrange(at + 1, at + 4) =~= lines);
        let k = lemma_case(b, x, at, lines, end);
        lemma_dispatch(b, m, end, case1, case2, at, x.run(lines), k);
        x.run(lines)
    }
}

/// Merging the left part of a word.
proof fn lemma_merge_left(pc: u32, m: Host) -> (n: Host)
    ensures
        flow::executes(AotCompiler::load_left_listing(pc, Reg::Esi, Reg::Edx), m, n),
        n.low(Gpr::Rsi) == vm::loaded(
            Opcode::LWL,
            m.low(Gpr::Rax),
            m.low(Gpr::Rsi),
            m.low(Gpr::Rdx),
        ),
        only_scratch(n, m),
        n.words == m.words,
{
    let b = AotCompiler::load_left_listing(pc, Reg::Esi, Reg::Edx);
    let c = m.low(Gpr::Rax) % 4;
    let x = dispatched(m, c);
    let end = Label::Within(pc, Spot::LwlEnd);
    let case0 = Label::Within(pc, Spot::LwlCase0);
    let case1 = Label::Within(pc, Spot::LwlCase1);
    let case2 = Label::Within(pc, Spot::LwlCase2);
    lemma_dispatched(m, c);
    assert(b.len() == 24);
    assert(finds_the_case(b, case0, case1, case2));
    if c == 3 {
        let lines = Seq::<Line>::empty();
        assert(b.subrange(8, 8) =~= lines);
        let k = lemma_case(b, x, 7, lines, end);
        laws::lemma_run_empty(x);
        lemma_dispatch(b, m, case0, case1, case2, 7, x, k);
        x
    } else {
        let (at, mask, count) = if c == 0 {
            (19int, 0x00ff_ffffu32, 24u64)
        } else if c == 1 {
            (14int, 0x0000_ffffu32, 16u64)
        } else {
            (9int, 0x0000_00ffu32, 8u64)
        };
        let lines = merging(mask, Op::Shl, count);
        lemma_merging(x, mask, Op::Shl, count);
        assert(b.subrange(at + 1, at + 4) =~= lines);
        let k = lemma_case(b, x, at, lines, end);
        lemma_dispatch(b, m, case0, case1, case2, at, x.run(lines), k);
        x.run(lines)
    }
}

/// Whether the guest memory lies within the address space of the host.
pub open spec fn fits(m: Host) -> bool {
    m.gprs[Gpr::R15] + 0x1_0000_0000 <= 0x1_0000_0000_0000_0000
}

/// The guest address of a load or store.
pub open spec fn target(m: Host, i: Instruction) -> u32 {
    vm::word(m.guest(instruction::reg_of(i.op_b)) + i.op_c)
}

/// The lines that leave the guest address of the operand in `rsi`. Accesses to a part of a word
/// keep the address and find the word; accesses to a word find the word too.
pub open spec fn locating(i: Instruction, part: bool, whole: bool) -> Seq<Line> {
    let code = common::fetch(instruction::reg_of(i.op_b), Reg::Esi, true);
    let code = code.push(
        Line::Op2(3, Op::Add, Operand::R(Reg::Esi), Operand::I(i.op_c as u64)),
    );
    let align = Line::Op2(3, Op::And, Operand::R(Reg::Esi), Operand::H(0xffff_fffc));
    let code = if part {
        code.push(Line::Op2(3, Op::Mov, Operand::R(Reg::Eax), Operand::R(Reg::Esi))).push(align)
    } else {
        code
    };
    if whole {
        code.push(align)
    } else {
        code
    }
}

/// The line that points `rsi` to the operand in memory.
pub open spec fn pointing() -> Seq<Line> {
    seq![
        Line::Op2(
            3,
            Op::Lea,
            Operand::R(Reg::Rsi),
            Operand::M(Size::Implied, Reg::Rsi, Shift::Index(Reg::R15)),
        ),
    ]
}

/// The lines in front of an access: those of the metering, and those that point `rsi` to the
/// operand in memory.
pub open spec fn reaching(
    compiler: &AotCompiler,
    front: Seq<Line>,
    i: Instruction,
    pc: u32,
    part: bool,
    whole: bool,
) -> Seq<Line> {
    front + locating(i, part, whole) + metering::middle(compiler, pc, part || whole) + pointing()
}

proof fn lemma_only_scratch(n: Host, m: Host)
    requires
        only_scratch(n, m),
    ensures
        n.words == m.words ==> n.keeps_the_rest(m),
        (Host { words: m.words, ..n }).keeps_the_rest(m),
        forall|r: u8| r < HOSTED_REGISTERS ==> #[trigger] n.guest(r) == m.guest(r),
{
    reveal(Host::keeps_the_rest);
}

/// Fetching and stowing are plain.
proof fn lemma_plain_parts(reg: u8, dst: Reg, force: bool, src: Reg)
    ensures
        flow::all_plain(common::fetch(reg, dst, force)),
        flow::all_plain(common::stow(src, reg)),
{
}

/// What finding the address does.
proof fn lemma_locating(m: Host, i: Instruction, part: bool, whole: bool)
    requires
        instruction::reg_of(i.op_b) < HOSTED_REGISTERS,
        !(part && whole),
    ensures
        flow::all_plain(locating(i, part, whole)),
        ({
            let n = m.run(locating(i, part, whole));
            let addr = target(m, i);
            &&& n.gprs[Gpr::Rsi] == if part || whole {
                addr - addr % 4
            } else {
                addr as int
            }
            &&& part ==> n.low(Gpr::Rax) == addr
            &&& only_scratch(n, m)
            &&& n.words == m.words
        }),
{
    reveal(Host::after);
    let b = instruction::reg_of(i.op_b);
    let none = Seq::<Line>::empty();
    let c1 = none + common::fetch(b, Reg::Esi, true);
    assert(c1 =~= common::fetch(b, Reg::Esi, true));
    let add = Line::Op2(3, Op::Add, Operand::R(Reg::Esi), Operand::I(i.op_c as u64));
    let c2 = c1.push(add);
    let copy = Line::Op2(3, Op::Mov, Operand::R(Reg::Eax), Operand::R(Reg::Esi));
    let align = Line::Op2(3, Op::And, Operand::R(Reg::Esi), Operand::H(0xffff_fffc));
    let addr = target(m, i);
    lemma_offsets(addr);
    lemma_plain_parts(b, Reg::Esi, true, Reg::Esi);
    laws::lemma_run_empty(m);
    laws::lemma_fetch(m, none, b, Reg::Esi, true);
    laws::lemma_fetched(m, b, Reg::Esi, true);
    let m1 = m.run(c1);
    assert(m1.low(Gpr::Rsi) == m.guest(b));
    laws::lemma_run_push(m, c1, add);
    let m2 = m.run(c2);
    assert(m2.low(Gpr::Rsi) == addr);
    assert(m2.gprs[Gpr::Rsi] == addr);
    assert(only_scratch(m2, m) && m2.words == m.words);
    if part {
        laws::lemma_run_push(m, c2, copy);
        laws::lemma_run_push(m, c2.push(copy), align);
    } else if whole {
        laws::lemma_run_push(m, c2, align);
    }
}

/// What the lines in front of an access do.
proof fn lemma_reaching(
    compiler: &AotCompiler,
    front: Seq<Line>,
    i: Instruction,
    pc: u32,
    m: Host,
    part: bool,
    whole: bool,
) -> (n: Host)
    requires
        instruction::reg_of(i.op_b) < HOSTED_REGISTERS,
        fits(m),
        !(part && whole),
        flow::all_plain(front),
        metering::undisturbed(m.run(front), m),
    ensures
        flow::executes(reaching(compiler, front, i, pc, part, whole), m, n),
        ({
            let addr = target(m, i);
            &&& n.pointee(Reg::Rsi) == if part || whole {
                addr - addr % 4
            } else {
                addr as int
            }
            &&& part ==> n.low(Gpr::Rax) == addr
            &&& only_scratch(n, m)
            &&& n.words == m.words
        }),
{
    let locate = locating(i, part, whole);
    let between = metering::middle(compiler, pc, part || whole);
    let w = m.run(front);
    flow::lemma_plain_listing(front, m);
    assert(only_scratch(w, m));
    lemma_only_scratch(w, m);
    let x = w.run(locate);
    lemma_locating(w, i, part, whole);
    flow::lemma_plain_listing(locate, w);
    flow::lemma_joined(front, locate, m, w, x);
    let y = metering::lemma_middle(compiler, x, pc, part || whole);
    flow::lemma_joined(front + locate, between, m, x, y);
    let n = y.run(pointing());
    assert(flow::all_plain(pointing()));
    flow::lemma_plain_listing(pointing(), y);
    flow::lemma_joined(front + locate + between, pointing(), m, y, n);
    assert(n == y.fill(Reg::Rsi, y.gprs[Gpr::Rsi].wrapping_add(y.gprs[Gpr::R15]))) by {
        laws::lemma_run_empty(y);
        assert(pointing() =~= Seq::<Line>::empty().push(pointing()[0]));
        laws::lemma_run_push(y, Seq::<Line>::empty(), pointing()[0]);
        reveal(Host::after);
    }
    assert(target(w, i) == target(m, i));
    assert forall|g: Gpr| !laws::is_scratch(g) implies #[trigger] n.gprs[g] == m.gprs[g] by {
        assert(w.gprs[g] == m.gprs[g]);
        assert(x.gprs[g] == w.gprs[g]);
        assert(y.gprs[g] == x.gprs[g]);
    }
    n
}

/// Whether a state is what a load should leave: the loaded value is in the destination, unless
/// that is the register that is always zero; no other guest register has changed, nor memory, nor
/// the registers that the run lives on.
pub open spec fn loads(i: Instruction, before: Host, after: Host) -> bool {
    let addr = target(before, i);
    let word = before.words[addr as int / 4];
    &&& after.keeps_the_rest(before)
    &&& after.keeps_guests_but(before, i.op_a, i.op_a)
    &&& after.guest(i.op_a) == if i.op_a == 0 {
        before.guest(0)
    } else {
        vm::loaded(i.opcode, addr, word, before.guest(i.op_a))
    }
}

/// A register holds the loaded value and is given to the destination.
proof fn lemma_deliver(i: Instruction, before: Host, m: Host, src: Reg)
    requires
        i.op_a < HOSTED_REGISTERS,
        laws::writable(src),
        m.keeps_the_rest(before),
        m.keeps_guests_but(before, i.op_a, i.op_a),
        i.op_a == 0 ==> m.guest(0) == before.guest(0),
        m.low(src.gpr()) == vm::loaded(
            i.opcode,
            target(before, i),
            before.words[target(before, i) as int / 4],
            before.guest(i.op_a),
        ),
    ensures
        i.op_a != 0 ==> loads(i, before, laws::stowed(m, src, i.op_a)),
        i.op_a == 0 ==> loads(i, before, m),
{
    if i.op_a != 0 {
        let after = laws::stowed(m, src, i.op_a);
        laws::lemma_stowed(m, src, i.op_a);
        laws::lemma_rest_adds_up(before, m, after);
        assert forall|r: u8|
            r < HOSTED_REGISTERS && r != i.op_a implies #[trigger] after.guest(r) == before.guest(
            r,
        ) by {
            assert(m.guest(r) == before.guest(r));
        }
    }
}

/// The lines behind the access that deliver the value.
pub open spec fn delivery(i: Instruction, src: Reg) -> Seq<Line> {
    if i.op_a != 0 {
        common::stow(src, i.op_a)
    } else {
        Seq::empty()
    }
}

/// The line that loads, for loads that do not merge.
pub open spec fn load_line(opcode: Opcode, dst: Reg) -> Line {
    let byte = Operand::M(Size::Byte, Reg::Rsi, Shift::Nothing);
    let half = Operand::M(Size::Word, Reg::Rsi, Shift::Nothing);
    match opcode {
        Opcode::LB => Line::Op2(3, Op::Movsx, Operand::R(dst), byte),
        Opcode::LBU => Line::Op2(3, Op::Movzx, Operand::R(dst), byte),
        Opcode::LH => Line::Op2(3, Op::Movsx, Operand::R(dst), half),
        Opcode::LHU => Line::Op2(3, Op::Movzx, Operand::R(dst), half),
        _ => Line::Op2(
            3,
            Op::Mov,
            Operand::R(dst),
            Operand::M(Size::Implied, Reg::Rsi, Shift::Nothing),
        ),
    }
}

/// What the code of a load that does not merge is made up of.
proof fn lemma_simple_load_listing(compiler: &AotCompiler, i: Instruction, pc: u32)
    requires
        emit::compilable(i),
        i.opcode.class() == OpClass::Load,
        !(i.opcode is LWL || i.opcode is LWR),
    ensures
        ({
            let whole = i.opcode is LW || i.opcode is LL;
            let dst = common::overriding_or(i.op_a, Reg::Esi);
            let access = Seq::<Line>::empty().push(load_line(i.opcode, dst));
            compiler.memory_load_listing(i, pc) =~= reaching(
                compiler,
                metering::load_front(compiler, i),
                i,
                pc,
                false,
                whole,
            ) + (access + delivery(i, dst))
        }),
{
}

proof fn lemma_simple_load(compiler: &AotCompiler, i: Instruction, pc: u32, m: Host) -> (n: Host)
    requires
        emit::compilable(i),
        i.opcode.class() == OpClass::Load,
        !(i.opcode is LWL || i.opcode is LWR),
        fits(m),
        !vm::load_misaligned(i.opcode, target(m, i)),
    ensures
        flow::executes(compiler.memory_load_listing(i, pc), m, n),
        loads(i, m, n),
{
    let a = i.op_a;
    let whole = i.opcode is LW || i.opcode is LL;
    let front = metering::load_front(compiler, i);
    let reach = reaching(compiler, front, i, pc, false, whole);
    let dst = common::overriding_or(a, Reg::Esi);
    let line = load_line(i.opcode, dst);
    let none = Seq::<Line>::empty();
    let access = none.push(line);
    let back = delivery(i, dst);
    metering::metering_disturbs_nothing(compiler, m, i);
    let x = lemma_reaching(compiler, front, i, pc, m, false, whole);
    laws::lemma_destination(a, Reg::Esi);
    lemma_simple_load_listing(compiler, i, pc);
    let addr = target(m, i);
    lemma_only_scratch(x, m);
    laws::lemma_run_empty(x);
    laws::lemma_run_push(x, none, line);
    let y = x.run(access);
    let value = vm::loaded(i.opcode, addr, m.words[addr as int / 4], m.guest(a));
    assert(y == x.set(dst, value)) by {
        reveal(Host::after);
    }
    laws::lemma_set(x, dst, value);
    laws::lemma_rest_adds_up(m, x, y);
    assert forall|r: u8| r < HOSTED_REGISTERS && r != a implies #[trigger] y.guest(r) == m.guest(r) by {
        assert(common::overriding(r) != Some(dst));
        assert(x.guest(r) == m.guest(r));
    }
    lemma_deliver(i, m, y, dst);
    lemma_plain_parts(a, Reg::Esi, true, dst);
    flow::lemma_plain_push(none, line);
    flow::lemma_plain_sum(access, back);
    flow::lemma_plain_listing(access + back, x);
    if a != 0 {
        laws::lemma_stow(x, access, dst, a);
    } else {
        assert(access + back =~= access);
    }
    let n = x.run(access + back);
    flow::lemma_joined(reach, access + back, m, x, n);
    n
}

/// The code that merges a part of the loaded word with the old value.
pub open spec fn merging_block(i: Instruction, pc: u32) -> Seq<Line> {
    if i.opcode is LWR {
        AotCompiler::load_right_listing(pc, Reg::Esi, Reg::Edx)
    } else {
        AotCompiler::load_left_listing(pc, Reg::Esi, Reg::Edx)
    }
}

/// What the code of a load that merges is made up of.
proof fn lemma_merging_load_listing(compiler: &AotCompiler, i: Instruction, pc: u32)
    requires
        emit::compilable(i),
        i.opcode is LWL || i.opcode is LWR,
    ensures
        ({
            let line = load_line(i.opcode, Reg::Esi);
            let front = Seq::<Line>::empty().push(line) + common::fetch(i.op_a, Reg::Edx, true);
            compiler.memory_load_listing(i, pc) =~= reaching(
                compiler,
                metering::load_front(compiler, i),
                i,
                pc,
                true,
                false,
            ) + (front + merging_block(i, pc) + delivery(i, Reg::Esi))
        }),
{
}

proof fn lemma_merging_load(compiler: &AotCompiler, i: Instruction, pc: u32, m: Host) -> (n: Host)
    requires
        emit::compilable(i),
        i.opcode is LWL || i.opcode is LWR,
        fits(m),
    ensures
        flow::executes(compiler.memory_load_listing(i, pc), m, n),
        loads(i, m, n),
{
    let a = i.op_a;
    let metered = metering::load_front(compiler, i);
    let reach = reaching(compiler, metered, i, pc, true, false);
    let none = Seq::<Line>::empty();
    let line = load_line(i.opcode, Reg::Esi);
    let front = none.push(line) + common::fetch(a, Reg::Edx, true);
    let block = merging_block(i, pc);
    let back = delivery(i, Reg::Esi);
    lemma_merging_load_listing(compiler, i, pc);
    let addr = target(m, i);
    let word = m.words[addr as int / 4];
    metering::metering_disturbs_nothing(compiler, m, i);
    let x = lemma_reaching(compiler, metered, i, pc, m, true, false);
    lemma_only_scratch(x, m);
    laws::lemma_run_empty(x);
    laws::lemma_run_push(x, none, line);
    let y = x.run(none.push(line));
    assert(y == x.set(Reg::Esi, word)) by {
        reveal(Host::after);
    }
    laws::lemma_fetch(x, none.push(line), a, Reg::Edx, true);
    let z = x.run(front);
    assert(z == y.set(Reg::Edx, y.guest(a)));
    assert(y.guest(a) == m.guest(a));
    assert(only_scratch(z, m) && z.words == m.words);
    let merged = if i.opcode is LWR {
        lemma_merge_right(pc, z)
    } else {
        lemma_merge_left(pc, z)
    };
    assert(only_scratch(merged, m) && merged.words == m.words);
    lemma_only_scratch(merged, m);
    lemma_deliver(i, m, merged, Reg::Esi);
    lemma_plain_parts(a, Reg::Edx, true, Reg::Esi);
    flow::lemma_plain_push(none, line);
    flow::lemma_plain_sum(none.push(line), common::fetch(a, Reg::Edx, true));
    flow::lemma_around(front, block, back, x, merged);
    laws::lemma_run_empty(merged);
    if a != 0 {
        laws::lemma_stow(merged, none, Reg::Esi, a);
        assert(none + back =~= back);
    }
    let n = merged.run(back);
    flow::lemma_joined(reach, front + block + back, m, x, n);
    n
}

/// The code of a load does what the load does, metered or not: run on the host, it leaves the
/// loaded value in the destination and changes nothing else of the guest, nor what the run lives
/// on.
pub proof fn load_code_loads(compiler: &AotCompiler, i: Instruction, pc: u32, m: Host)
    requires
        emit::compilable(i),
        i.opcode.class() == OpClass::Load,
        fits(m),
        !vm::load_misaligned(i.opcode, target(m, i)),
    ensures
        exists|n: Host| #[trigger]
            flow::executes(compiler.memory_load_listing(i, pc), m, n) && loads(i, m, n),
{
    let n = if i.opcode is LWL || i.opcode is LWR {
        lemma_merging_load(compiler, i, pc, m)
    } else {
        lemma_simple_load(compiler, i, pc, m)
    };
    assert(flow::executes(compiler.memory_load_listing(i, pc), m, n) && loads(i, m, n));
}

/// The lines that put a part of the register into a word.
pub open spec fn inserting(mask: u32, op: Op, count: u64) -> Seq<Line> {
    let word = Operand::M(Size::Implied, Reg::Rsi, Shift::Nothing);
    Seq::<Line>::empty().push(Line::Op2(3, Op::Mov, Operand::R(Reg::Edx), word)).push(
        Line::Op2(3, Op::And, Operand::R(Reg::Edx), Operand::Mask(mask)),
    ).push(Line::Op2(3, op, Operand::R(Reg::Edi), Operand::I(count))).push(
        Line::Op2(3, Op::Or, Operand::R(Reg::Edx), Operand::R(Reg::Edi)),
    ).push(Line::Op2(3, Op::Mov, word, Operand::R(Reg::Edx)))
}

/// What those lines do.
proof fn lemma_inserting(x: Host, mask: u32, op: Op, count: u64)
    requires
        op is Shl || op is Shr,
        count == 8 || count == 16 || count == 24,
    ensures
        flow::all_plain(inserting(mask, op, count)),
        ({
            let n = x.run(inserting(mask, op, count));
            let at = x.pointee(Reg::Rsi) / 4;
            let moved = if op is Shl {
                x.low(Gpr::Rdi) << (count as u32)
            } else {
                x.low(Gpr::Rdi) >> (count as u32)
            };
            &&& n.words == x.words.insert(at, (x.words[at] & mask) | moved)
            &&& only_scratch(n, x)
        }),
{
    reveal(Host::after);
    lemma_shift_counts();
    let word = Operand::M(Size::Implied, Reg::Rsi, Shift::Nothing);
    let c0 = Seq::<Line>::empty();
    let l1 = Line::Op2(3, Op::Mov, Operand::R(Reg::Edx), word);
    let l2 = Line::Op2(3, Op::And, Operand::R(Reg::Edx), Operand::Mask(mask));
    let l3 = Line::Op2(3, op, Operand::R(Reg::Edi), Operand::I(count));
    let l4 = Line::Op2(3, Op::Or, Operand::R(Reg::Edx), Operand::R(Reg::Edi));
    let l5 = Line::Op2(3, Op::Mov, word, Operand::R(Reg::Edx));
    let c1 = c0.push(l1);
    let c2 = c1.push(l2);
    let c3 = c2.push(l3);
    let c4 = c3.push(l4);
    laws::lemma_run_empty(x);
    laws::lemma_run_push(x, c0, l1);
    laws::lemma_run_push(x, c1, l2);
    laws::lemma_run_push(x, c2, l3);
    laws::lemma_run_push(x, c3, l4);
    laws::lemma_run_push(x, c4, l5);
    let at = x.pointee(Reg::Rsi) / 4;
    assert(x.run(c1).low(Gpr::Rdx) == x.words[at]);
    assert(x.run(c2).low(Gpr::Rdx) == x.words[at] & mask);
    assert(x.run(c2).low(Gpr::Rdi) == x.low(Gpr::Rdi));
    assert(x.run(c3).low(Gpr::Rdx) == x.run(c2).low(Gpr::Rdx));
    assert(x.run(c4).pointee(Reg::Rsi) == x.pointee(Reg::Rsi));
}

/// The line that stores the whole register.
pub open spec fn overwriting() -> Seq<Line> {
    Seq::<Line>::empty().push(
        Line::Op2(
            3,
            Op::Mov,
            Operand::M(Size::Implied, Reg::Rsi, Shift::Nothing),
            Operand::R(Reg::Edi),
        ),
    )
}

proof fn lemma_overwriting(x: Host)
    ensures
        flow::all_plain(overwriting()),
        x.run(overwriting()).words == x.words.insert(
            x.pointee(Reg::Rsi) / 4,
            x.low(Gpr::Rdi),
        ),
        only_scratch(x.run(overwriting()), x),
{
    reveal(Host::after);
    laws::lemma_run_empty(x);
    laws::lemma_run_push(
        x,
        Seq::<Line>::empty(),
        Line::Op2(
            3,
            Op::Mov,
            Operand::M(Size::Implied, Reg::Rsi, Shift::Nothing),
            Operand::R(Reg::Edi),
        ),
    );
}

/// Storing the right part of a word.
proof fn lemma_insert_right(pc: u32, m: Host) -> (n: Host)
    ensures
        flow::executes(AotCompiler::store_right_listing(pc, Reg::Rsi, Reg::Edi), m, n),
        ({
            let at = m.pointee(Reg::Rsi) / 4;
            n.words == m.words.insert(
                at,
                vm::stored(Opcode::SWR, m.low(Gpr::Rax), m.words[at], m.low(Gpr::Rdi)),
            )
        }),
        only_scratch(n, m),
{
    let b = AotCompiler::store_right_listing(pc, Reg::Rsi, Reg::Edi);
    let c = m.low(Gpr::Rax) % 4;
    let x = dispatched(m, c);
    let end = Label::Within(pc, Spot::SwrEnd);
    let case0 = Label::Within(pc, Spot::SwrCase0);
    let case1 = Label::Within(pc, Spot::SwrCase1);
    let case2 = Label::Within(pc, Spot::SwrCase2);
    lemma_dispatched(m, c);
    assert(b.len() == 31);
    assert(finds_the_case(b, case0, case1, case2));
    if c == 0 {
        let lines = overwriting();
        lemma_overwriting(x);
        assert(b.subrange(29, 30) =~= lines);
        let k = lemma_case(b, x, 28, lines, end);
        lemma_dispatch(b, m, case0, case1, case2, 28, x.run(lines), k);
        x.run(lines)
    } else {
        let (at, mask, count) = if c == 1 {
            (21int, 0x0000_00ffu32, 8u64)
        } else if c == 2 {
            (14int, 0x0000_ffffu32, 16u64)
        } else {
            (7int, 0x00ff_ffffu32, 24u64)
        };
        let lines = inserting(mask, Op::Shl, count);
        lemma_inserting(x, mask, Op::Shl, count);
        assert(b.subrange(at + 1, at + 6) =~= lines);
        let k = lemma_case(b, x, at, lines, end);
        lemma_dispatch(b, m, case0, case1, case2, at, x.run(lines), k);
        x.run(lines)
    }
}

/// Storing the left part of a word.
proof fn lemma_insert_left(pc: u32, m: Host) -> (n: Host)
    ensures
        flow::executes(AotCompiler::store_left_listing(pc, Reg::Rsi, Reg::Edi), m, n),
        ({
            let at = m.pointee(Reg::Rsi) / 4;
            n.words == m.words.insert(
                at,
                vm::stored(Opcode::SWL, m.low(Gpr::Rax), m.words[at], m.low(Gpr::Rdi)),
            )
        }),
        only_scratch(n, m),
{
    let b = AotCompiler::store_left_listing(pc, Reg::Rsi, Reg::Edi);
    let c = m.low(Gpr::Rax) % 4;
    let x = dispatched(m, c);
    let end = Label::Within(pc, Spot::SwlEnd);
    let case0 = Label::Within(pc, Spot::SwlCase0);
    let case1 = Label::Within(pc, Spot::SwlCase1);
    let case2 = Label::Within(pc, Spot::SwlCase2);
    lemma_dispatched(m, c);
    assert(b.len() == 31);
    assert(finds_the_case(b, case0, case1, case2));
    if c == 3 {
        let lines = overwriting();
        lemma_overwriting(x);
        assert(b.subrange(8, 9) =~= lines);
        let k = lemma_case(b, x, 7, lines, end);
        lemma_dispatch(b, m, case0, case1, case2, 7, x.run(lines), k);
        x.run(lines)
    } else {
        let (at, mask, count) = if c == 0 {
            (24int, 0xffff_ff00u32, 24u64)
        } else if c == 1 {
            (17int, 0xffff_0000u32, 16u64)
        } else {
            (10int, 0xff00_0000u32, 8u64)
        };
        let lines = inserting(mask, Op::Shr, count);
        lemma_inserting(x, mask, Op::Shr, count);
        assert(b.subrange(at + 1, at + 6) =~= lines);
        let k = lemma_case(b, x, at, lines, end);
        lemma_dispatch(b, m, case0, case1, case2, at, x.run(lines), k);
        x.run(lines)
    }
}

/// Whether a state is what a store should leave: the word holds what was stored, no other word
/// and no guest register has changed, except that a conditional store sets its register to one;
/// neither have the registers that the run lives on.
pub open spec fn stores(i: Instruction, before: Host, after: Host) -> bool {
    let addr = target(before, i);
    let word = before.words[addr as int / 4];
    &&& after.words == before.words.insert(
        addr as int / 4,
        vm::stored(i.opcode, addr, word, before.guest(i.op_a)),
    )
    &&& (Host { words: before.words, ..after }).keeps_the_rest(before)
    &&& after.keeps_guests_but(before, i.op_a, i.op_a)
    &&& after.guest(i.op_a) == if i.opcode is SC {
        1
    } else {
        before.guest(i.op_a)
    }
}

/// The line that stores, for stores that do not shift the register.
pub open spec fn store_line(i: Instruction) -> Line {
    let src = common::place(i.op_a, Reg::Edi, false);
    let (size, part) = match i.opcode {
        Opcode::SB => (Size::Byte, Reg::of(src.gpr(), Width::W8L)),
        Opcode::SH => (Size::Word, Reg::of(src.gpr(), Width::W16)),
        _ => (Size::Implied, src),
    };
    Line::Op2(3, Op::Mov, Operand::M(size, Reg::Rsi, Shift::Nothing), Operand::R(part))
}

/// What the code of a store that does not shift the register is made up of.
proof fn lemma_simple_store_listing(compiler: &AotCompiler, i: Instruction, pc: u32)
    requires
        emit::compilable(i),
        i.opcode.class() == OpClass::Store,
        !(i.opcode is SWL || i.opcode is SWR || i.opcode is SC),
    ensures
        ({
            let fetch = Seq::<Line>::empty() + common::fetch(i.op_a, Reg::Edi, false);
            compiler.memory_store_listing(i, pc) =~= reaching(
                compiler,
                metering::store_front(compiler, i),
                i,
                pc,
                false,
                i.opcode is SW,
            ) + fetch.push(store_line(i))
        }),
{
}

/// Stores that do not shift the register.
proof fn lemma_simple_store(compiler: &AotCompiler, i: Instruction, pc: u32, m: Host) -> (n: Host)
    requires
        emit::compilable(i),
        i.opcode.class() == OpClass::Store,
        !(i.opcode is SWL || i.opcode is SWR || i.opcode is SC),
        fits(m),
        !vm::store_misaligned(i.opcode, target(m, i)),
    ensures
        flow::executes(compiler.memory_store_listing(i, pc), m, n),
        stores(i, m, n),
{
    let a = i.op_a;
    let whole = i.opcode is SW;
    let metered = metering::store_front(compiler, i);
    let reach = reaching(compiler, metered, i, pc, false, whole);
    let none = Seq::<Line>::empty();
    let src = common::place(a, Reg::Edi, false);
    let (size, part) = match i.opcode {
        Opcode::SB => (Size::Byte, Reg::of(src.gpr(), Width::W8L)),
        Opcode::SH => (Size::Word, Reg::of(src.gpr(), Width::W16)),
        _ => (Size::Implied, src),
    };
    let line = store_line(i);
    let c1 = none + common::fetch(a, Reg::Edi, false);
    lemma_simple_store_listing(compiler, i, pc);
    metering::metering_disturbs_nothing(compiler, m, i);
    let x = lemma_reaching(compiler, metered, i, pc, m, false, whole);
    lemma_only_scratch(x, m);
    laws::lemma_run_empty(x);
    laws::lemma_fetch(x, none, a, Reg::Edi, false);
    laws::lemma_fetched(x, a, Reg::Edi, false);
    let y = x.run(c1);
    assert(only_scratch(y, m) && y.words == m.words);
    assert(y.pointee(Reg::Rsi) == x.pointee(Reg::Rsi));
    assert(part.gpr() == src.gpr());
    assert(y.low(src.gpr()) == m.guest(a));
    laws::lemma_run_push(x, c1, line);
    let n = x.run(c1.push(line));
    let addr = target(m, i);
    assert(n == y.store(size, addr as int, m.guest(a))) by {
        reveal(Host::after);
    }
    assert(only_scratch(n, m));
    lemma_only_scratch(n, m);
    lemma_plain_parts(a, Reg::Edi, false, Reg::Edi);
    flow::lemma_plain_sum(none, common::fetch(a, Reg::Edi, false));
    flow::lemma_plain_push(c1, line);
    flow::lemma_plain_listing(c1.push(line), x);
    flow::lemma_joined(reach, c1.push(line), m, x, n);
    n
}

/// What the code of a conditional store is made up of.
proof fn lemma_conditional_store_listing(compiler: &AotCompiler, i: Instruction, pc: u32)
    requires
        emit::compilable(i),
        i.opcode is SC,
    ensures
        ({
            let src = common::place(i.op_a, Reg::Edi, false);
            let fetch = Seq::<Line>::empty() + common::fetch(i.op_a, Reg::Edi, false);
            let one = Line::Op2(3, Op::Mov, Operand::R(src), Operand::I(1));
            compiler.memory_store_listing(i, pc) =~= reaching(
                compiler,
                metering::store_front(compiler, i),
                i,
                pc,
                false,
                true,
            ) + (fetch.push(store_line(i)).push(one) + common::stow(src, i.op_a))
        }),
{
}

/// Conditional stores.
proof fn lemma_conditional_store(
    compiler: &AotCompiler,
    i: Instruction,
    pc: u32,
    m: Host,
) -> (n: Host)
    requires
        emit::compilable(i),
        i.opcode is SC,
        fits(m),
        !vm::store_misaligned(i.opcode, target(m, i)),
    ensures
        flow::executes(compiler.memory_store_listing(i, pc), m, n),
        stores(i, m, n),
{
    let a = i.op_a;
    let metered = metering::store_front(compiler, i);
    let reach = reaching(compiler, metered, i, pc, false, true);
    let none = Seq::<Line>::empty();
    let src = common::place(a, Reg::Edi, false);
    let put = store_line(i);
    let one = Line::Op2(3, Op::Mov, Operand::R(src), Operand::I(1));
    let c1 = none + common::fetch(a, Reg::Edi, false);
    let c3 = c1.push(put).push(one);
    let work = c3 + common::stow(src, a);
    lemma_conditional_store_listing(compiler, i, pc);
    metering::metering_disturbs_nothing(compiler, m, i);
    let x = lemma_reaching(compiler, metered, i, pc, m, false, true);
    lemma_only_scratch(x, m);
    laws::lemma_run_empty(x);
    laws::lemma_fetch(x, none, a, Reg::Edi, false);
    laws::lemma_fetched(x, a, Reg::Edi, false);
    laws::lemma_destination(a, Reg::Edi);
    let y = x.run(c1);
    assert(only_scratch(y, m) && y.words == m.words);
    assert(y.pointee(Reg::Rsi) == x.pointee(Reg::Rsi));
    assert(src == common::overriding_or(a, Reg::Edi));
    assert(y.low(src.gpr()) == m.guest(a));
    laws::lemma_run_push(x, c1, put);
    laws::lemma_run_push(x, c1.push(put), one);
    let z = x.run(c1.push(put));
    let addr = target(m, i);
    assert(z == y.store(Size::Implied, addr as int, m.guest(a))) by {
        reveal(Host::after);
    }
    assert(only_scratch(z, m));
    lemma_only_scratch(z, m);
    let w = x.run(c3);
    assert(w == z.set(src, 1)) by {
        reveal(Host::after);
    }
    laws::lemma_set(z, src, 1);
    laws::lemma_stow(x, c3, src, a);
    laws::lemma_stowed(w, src, a);
    let n = x.run(work);
    assert(n.words == z.words) by {
        reveal(Host::keeps_the_rest);
    }
    assert((Host { words: m.words, ..n }).keeps_the_rest(m)) by {
        reveal(Host::keeps_the_rest);
        assert forall|gpr: Gpr| #[trigger]
            n.gprs[gpr] == m.gprs[gpr] || laws::is_scratch(gpr) || laws::holds_a_guest(gpr) by {
            assert(w.gprs[gpr] == z.gprs[gpr] || laws::is_scratch(gpr) || laws::holds_a_guest(gpr));
            assert(n.gprs[gpr] == w.gprs[gpr] || laws::is_scratch(gpr) || laws::holds_a_guest(gpr));
        }
        assert forall|v: u8, l: u8| #[trigger]
            n.lanes[(v, l)] == m.lanes[(v, l)] || laws::is_a_guest_lane(v, l) by {
            assert(w.lanes[(v, l)] == z.lanes[(v, l)] || laws::is_a_guest_lane(v, l));
            assert(n.lanes[(v, l)] == w.lanes[(v, l)] || laws::is_a_guest_lane(v, l));
        }
    }
    assert forall|r: u8| r < HOSTED_REGISTERS && r != a implies #[trigger] n.guest(r) == m.guest(r) by {
        assert(common::overriding(r) != Some(src));
        assert(z.guest(r) == m.guest(r));
        assert(w.guest(r) == z.guest(r));
    }
    lemma_plain_parts(a, Reg::Edi, false, src);
    flow::lemma_plain_sum(none, common::fetch(a, Reg::Edi, false));
    flow::lemma_plain_push(c1, put);
    flow::lemma_plain_push(c1.push(put), one);
    flow::lemma_plain_sum(c3, common::stow(src, a));
    flow::lemma_plain_listing(work, x);
    flow::lemma_joined(reach, work, m, x, n);
    n
}

/// The code that puts a part of the register into the word.
pub open spec fn inserting_block(i: Instruction, pc: u32) -> Seq<Line> {
    if i.opcode is SWR {
        AotCompiler::store_right_listing(pc, Reg::Rsi, Reg::Edi)
    } else {
        AotCompiler::store_left_listing(pc, Reg::Rsi, Reg::Edi)
    }
}

/// What the code of a store of a part of a word is made up of.
proof fn lemma_partial_store_listing(compiler: &AotCompiler, i: Instruction, pc: u32)
    requires
        emit::compilable(i),
        i.opcode is SWL || i.opcode is SWR,
    ensures
        ({
            let none = Seq::<Line>::empty();
            let fetch = none + common::fetch(i.op_a, Reg::Edi, true);
            compiler.memory_store_listing(i, pc) =~= reaching(
                compiler,
                metering::store_front(compiler, i),
                i,
                pc,
                true,
                false,
            ) + (fetch + inserting_block(i, pc) + none)
        }),
{
}

/// Stores of a part of a word.
proof fn lemma_partial_store(compiler: &AotCompiler, i: Instruction, pc: u32, m: Host) -> (n: Host)
    requires
        emit::compilable(i),
        i.opcode is SWL || i.opcode is SWR,
        fits(m),
    ensures
        flow::executes(compiler.memory_store_listing(i, pc), m, n),
        stores(i, m, n),
{
    let a = i.op_a;
    let metered = metering::store_front(compiler, i);
    let reach = reaching(compiler, metered, i, pc, true, false);
    let none = Seq::<Line>::empty();
    let front = none + common::fetch(a, Reg::Edi, true);
    let block = inserting_block(i, pc);
    lemma_partial_store_listing(compiler, i, pc);
    metering::metering_disturbs_nothing(compiler, m, i);
    let x = lemma_reaching(compiler, metered, i, pc, m, true, false);
    lemma_only_scratch(x, m);
    laws::lemma_run_empty(x);
    laws::lemma_fetch(x, none, a, Reg::Edi, true);
    let y = x.run(front);
    assert(y == x.set(Reg::Edi, m.guest(a)));
    assert(only_scratch(y, m) && y.words == m.words);
    let n = if i.opcode is SWR {
        lemma_insert_right(pc, y)
    } else {
        lemma_insert_left(pc, y)
    };
    assert(only_scratch(n, m));
    lemma_only_scratch(n, m);
    lemma_plain_parts(a, Reg::Edi, true, Reg::Edi);
    flow::lemma_plain_sum(none, common::fetch(a, Reg::Edi, true));
    flow::lemma_around(front, block, none, x, n);
    laws::lemma_run_empty(n);
    flow::lemma_joined(reach, front + block + none, m, x, n);
    n
}

/// The code of a store does what the store does, metered or not: run on the host, it leaves the
/// stored value in memory and changes nothing else of the guest, nor what the run lives on.
pub proof fn store_code_stores(compiler: &AotCompiler, i: Instruction, pc: u32, m: Host)
    requires
        emit::compilable(i),
        i.opcode.class() == OpClass::Store,
        fits(m),
        !vm::store_misaligned(i.opcode, target(m, i)),
    ensures
        exists|n: Host| #[trigger]
            flow::executes(compiler.memory_store_listing(i, pc), m, n) && stores(i, m, n),
{
    let n = if i.opcode is SWL || i.opcode is SWR {
        lemma_partial_store(compiler, i, pc, m)
    } else if i.opcode is SC {
        lemma_conditional_store(compiler, i, pc, m)
    } else {
        lemma_simple_store(compiler, i, pc, m)
    };
    assert(flow::executes(compiler.memory_store_listing(i, pc), m, n) && stores(i, m, n));
}

} // verus!
