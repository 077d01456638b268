//! The metering code of compiled instructions notes every access and counts every event.
use vstd::prelude::*;

use crate::aot::common::{
    ACCESS_MEM_CLK, ACCESS_MEM_SHARD, ACCESS_REG_CLK, ACCESS_REG_SHARD, HOSTED_REGISTERS,
};
use crate::aot::emit;
use crate::aot::host::{Gpr, Label, Line, Op, Operand, Reg, Shift, Size, Spot};
use crate::aot::laws;
use crate::aot::laws::flow;
use crate::aot::laws::Host;
use crate::aot::AotCompiler;
use crate::consts::DEFAULT_CLK_INC;
use crate::events::MemoryAccessPosition;
use crate::instruction::Instruction;
use crate::opcode::{OpClass, Opcode};
use crate::register::Register;
use crate::vm;

verus! {

/// Everything is unchanged but for the tables, the flags and the registers that metering computes
/// in.
pub open spec fn undisturbed(n: Host, m: Host) -> bool {
    &&& n.lanes == m.lanes
    &&& n.words == m.words
    &&& forall|gpr: Gpr|
        !(gpr is Rdi || gpr is Rsi || gpr is Rdx) ==> #[trigger] n.gprs[gpr] == m.gprs[gpr]
}

/// The registers hold where the tables of the register accesses are.
pub open spec fn at_the_registers(m: Host) -> bool {
    &&& m.gprs[Gpr::Rdi] == m.top(ACCESS_REG_SHARD)
    &&& m.gprs[Gpr::Rsi] == m.top(ACCESS_REG_CLK)
}

/// Memory with the access of a guest register noted.
pub open spec fn noted(m: Host, cells: Map<u64, u32>, reg: u32, stamp: u32) -> Map<u64, u32> {
    let shards = m.top(ACCESS_REG_SHARD);
    let clocks = m.top(ACCESS_REG_CLK);
    cells.insert(shards.wrapping_add((4 * reg) as u64), m.low(Gpr::R14)).insert(
        clocks.wrapping_add((4 * reg) as u64),
        stamp,
    )
}

/// The lines that find the tables of the register accesses.
proof fn lemma_find(m: Host)
    ensures
        ({
            let n = m.run(AotCompiler::access_register_meta_addr_listing());
            n.cells == m.cells && undisturbed(n, m) && at_the_registers(n)
        }),
        flow::all_plain(AotCompiler::access_register_meta_addr_listing()),
{
    let none = Seq::<Line>::empty();
    let one = none.push(
        Line::Op3(3, Op::Pextrq, Operand::R(Reg::Rdi), Operand::X(ACCESS_REG_SHARD), Operand::I(1)),
    );
    let last = Line::Op3(3, Op::Pextrq, Operand::R(Reg::Rsi), Operand::X(ACCESS_REG_CLK), Operand::I(1));
    reveal(Host::after);
    laws::lemma_run_push(m, none, one.last());
    laws::lemma_run_push(m, one, last);
}

/// The lines that note the access of a register, the clock being so much behind.
spec fn noting(reg: u32, distance: u32) -> Seq<Line> {
    let place: u32 = reg << 2;
    Seq::<Line>::empty().push(
        Line::Op2(
            3,
            Op::Mov,
            Operand::M(Size::Dword, Reg::Rdi, Shift::Plus(place as u64)),
            Operand::R(Reg::R14d),
        ),
    ).push(
        Line::Op2(
            3,
            Op::Lea,
            Operand::R(Reg::Rdx),
            Operand::M(Size::Implied, Reg::R12, Shift::Minus(distance as u64)),
        ),
    ).push(
        Line::Op2(
            3,
            Op::Mov,
            Operand::M(Size::Dword, Reg::Rsi, Shift::Plus(place as u64)),
            Operand::R(Reg::Edx),
        ),
    )
}

/// What those lines do.
proof fn lemma_note(m: Host, reg: u32, distance: u32)
    ensures
        ({
            let n = m.run(noting(reg, distance));
            &&& undisturbed(n, m)
            &&& at_the_registers(m) ==> at_the_registers(n)
            &&& reg < HOSTED_REGISTERS && at_the_registers(m) && distance <= m.gprs[Gpr::R12]
                <= u32::MAX ==> n.cells == noted(
                m,
                m.cells,
                reg,
                (m.gprs[Gpr::R12] - distance) as u32,
            )
        }),
        flow::all_plain(noting(reg, distance)),
{
    let place: u32 = reg << 2;
    if reg < HOSTED_REGISTERS {
        assert(place == 4 * reg) by (bit_vector)
            requires
                place == reg << 2u32,
                reg < 34,
        ;
    }
    let none = Seq::<Line>::empty();
    let shard = Line::Op2(
        3,
        Op::Mov,
        Operand::M(Size::Dword, Reg::Rdi, Shift::Plus(place as u64)),
        Operand::R(Reg::R14d),
    );
    let clock = Line::Op2(
        3,
        Op::Lea,
        Operand::R(Reg::Rdx),
        Operand::M(Size::Implied, Reg::R12, Shift::Minus(distance as u64)),
    );
    let stamp = Line::Op2(
        3,
        Op::Mov,
        Operand::M(Size::Dword, Reg::Rsi, Shift::Plus(place as u64)),
        Operand::R(Reg::Edx),
    );
    reveal(Host::after);
    laws::lemma_run_push(m, none, shard);
    laws::lemma_run_push(m, none.push(shard), clock);
    laws::lemma_run_push(m, none.push(shard).push(clock), stamp);
}

/// Noting the access of a guest register stamps it with the shard and with the clock of the
/// instruction, moved on by the position of the access. The clock register is one instruction
/// ahead; the one of a branch or jump is two instructions ahead, since the delay slot was counted
/// too. Nothing else in memory changes.
pub proof fn register_accesses_are_noted(
    m: Host,
    reg: u32,
    pos: MemoryAccessPosition,
    clk: u32,
    control: bool,
)
    requires
        reg < HOSTED_REGISTERS,
        at_the_registers(m),
        m.gprs[Gpr::R12] == clk + if control {
            2 * DEFAULT_CLK_INC
        } else {
            DEFAULT_CLK_INC as int
        },
        m.gprs[Gpr::R12] <= u32::MAX,
    ensures
        ({
            let n = m.run(
                if control {
                    AotCompiler::access_register_meta_control_listing(reg, pos)
                } else {
                    AotCompiler::access_register_meta_listing(reg, pos)
                },
            );
            &&& n.cells == noted(m, m.cells, reg, (clk + pos.offset()) as u32)
            &&& undisturbed(n, m)
            &&& at_the_registers(n)
        }),
{
    if control {
        lemma_note(m, reg, (DEFAULT_CLK_INC + DEFAULT_CLK_INC - pos.offset()) as u32);
    } else {
        lemma_note(m, reg, (DEFAULT_CLK_INC - pos.offset()) as u32);
    }
}

/// The memory with the register accesses of an arithmetic or logic instruction noted: the operands
/// that are registers, then the results.
pub open spec fn alu_noted(m: Host, i: Instruction, clk: u32) -> Map<u64, u32> {
    let cells = if i.imm_c {
        m.cells
    } else {
        noted(m, m.cells, i.op_c, (clk + MemoryAccessPosition::C.offset()) as u32)
    };
    let cells = if i.imm_b {
        cells
    } else {
        noted(m, cells, i.op_b, (clk + MemoryAccessPosition::B.offset()) as u32)
    };
    let a = (clk + MemoryAccessPosition::A.offset()) as u32;
    if i.opcode.lo_hi() {
        let cells = noted(m, cells, Register::LO.number() as u32, a);
        noted(
            m,
            cells,
            Register::HI.number() as u32,
            (clk + MemoryAccessPosition::HI.offset()) as u32,
        )
    } else {
        noted(m, cells, i.op_a as u32, a)
    }
}

/// The metering code of an arithmetic or logic instruction notes the accesses of its operands and
/// of its results, and nothing else.
pub proof fn alu_accesses_are_noted(m: Host, i: Instruction, clk: u32)
    requires
        emit::compilable(i),
        i.opcode.class() == OpClass::Alu,
        !i.imm_c ==> i.op_c < HOSTED_REGISTERS,
        !i.imm_b ==> i.op_b < HOSTED_REGISTERS,
        m.gprs[Gpr::R12] == clk + DEFAULT_CLK_INC,
        m.gprs[Gpr::R12] <= u32::MAX,
    ensures
        ({
            let n = m.run(AotCompiler::alu_access_listing(i));
            n.cells == alu_noted(m, i, clk) && undisturbed(n, m)
        }),
{
    let code = Seq::<Line>::empty() + AotCompiler::access_register_meta_addr_listing();
    laws::runs_compose(m, Seq::<Line>::empty(), AotCompiler::access_register_meta_addr_listing());
    lemma_find(m);
    let x = m.run(code);
    let c = AotCompiler::access_register_meta_listing(i.op_c, MemoryAccessPosition::C);
    let code = if i.imm_c {
        code
    } else {
        laws::runs_compose(m, code, c);
        register_accesses_are_noted(x, i.op_c, MemoryAccessPosition::C, clk, false);
        code + c
    };
    let x = m.run(code);
    let b = AotCompiler::access_register_meta_listing(i.op_b, MemoryAccessPosition::B);
    let code = if i.imm_b {
        code
    } else {
        laws::runs_compose(m, code, b);
        register_accesses_are_noted(x, i.op_b, MemoryAccessPosition::B, clk, false);
        code + b
    };
    let x = m.run(code);
    if i.opcode.lo_hi() {
        let lo = Register::LO.number() as u32;
        let hi = Register::HI.number() as u32;
        let first = AotCompiler::access_register_meta_listing(lo, MemoryAccessPosition::A);
        let second = AotCompiler::access_register_meta_listing(hi, MemoryAccessPosition::HI);
        laws::runs_compose(m, code, first);
        register_accesses_are_noted(x, lo, MemoryAccessPosition::A, clk, false);
        laws::runs_compose(m, code + first, second);
        register_accesses_are_noted(
            m.run(code + first),
            hi,
            MemoryAccessPosition::HI,
            clk,
            false,
        );
    } else {
        let a = AotCompiler::access_register_meta_listing(i.op_a as u32, MemoryAccessPosition::A);
        laws::runs_compose(m, code, a);
        register_accesses_are_noted(x, i.op_a as u32, MemoryAccessPosition::A, clk, false);
    }
}

/// Noting the access of a word of guest memory stamps it with the shard and with the clock of the
/// instruction. Nothing else in memory changes, and the registers that hold an address are kept.
pub proof fn memory_accesses_are_noted(m: Host, addr: Reg, clk: u32)
    requires
        !(addr.gpr() is Rdi || addr.gpr() is Rdx),
        m.gprs[Gpr::R12] == clk + DEFAULT_CLK_INC,
        m.gprs[Gpr::R12] <= u32::MAX,
    ensures
        ({
            let n = m.run(AotCompiler::access_memory_meta_listing(addr));
            let offset = m.gprs[addr.gpr()];
            &&& n.cells == m.cells.insert(
                m.top(ACCESS_MEM_SHARD).wrapping_add(offset),
                m.low(Gpr::R14),
            ).insert(m.top(ACCESS_MEM_CLK).wrapping_add(offset), clk)
            &&& n.gprs[addr.gpr()] == offset
            &&& n.gprs[Gpr::Rsi] == m.gprs[Gpr::Rsi]
            &&& undisturbed(n, m)
        }),
{
    let none = Seq::<Line>::empty();
    let shards = Line::Op3(
        3,
        Op::Pextrq,
        Operand::R(Reg::Rdi),
        Operand::X(ACCESS_MEM_SHARD),
        Operand::I(1),
    );
    let shard = Line::Op2(
        3,
        Op::Mov,
        Operand::M(Size::Dword, Reg::Rdi, Shift::Index(addr)),
        Operand::R(Reg::R14d),
    );
    let clock = Line::Op2(
        3,
        Op::Lea,
        Operand::R(Reg::Rdx),
        Operand::M(Size::Implied, Reg::R12, Shift::Minus(DEFAULT_CLK_INC as u64)),
    );
    let clocks = Line::Op3(
        3,
        Op::Pextrq,
        Operand::R(Reg::Rdi),
        Operand::X(ACCESS_MEM_CLK),
        Operand::I(1),
    );
    let stamp = Line::Op2(
        3,
        Op::Mov,
        Operand::M(Size::Implied, Reg::Rdi, Shift::Index(addr)),
        Operand::R(Reg::Edx),
    );
    reveal(Host::after);
    let first = none.push(shards).push(shard);
    let second = none.push(clock).push(clocks).push(stamp);
    assert(AotCompiler::access_memory_shard_listing(addr) == first);
    assert(AotCompiler::access_memory_clk_listing(addr) == second);
    laws::runs_compose(m, none, first);
    laws::runs_compose(m, none + first, second);
    laws::lemma_run_push(m, none, shards);
    laws::lemma_run_push(m, none.push(shards), shard);
    let x = m.run(none + first);
    assert(undisturbed(x, m));
    laws::lemma_run_push(x, none, clock);
    laws::lemma_run_push(x, none.push(clock), clocks);
    laws::lemma_run_push(x, none.push(clock).push(clocks), stamp);
}

/// What was written in two words is what they hold.
proof fn lemma_wide(m: Host, at: u64, value: int)
    requires
        0 <= value,
    ensures
        m.put_wide(at, value).wide(at) == value % 0x1_0000_0000_0000_0000,
{
    assert(at.wrapping_add(4) != at);
    assert(value % 0x1_0000_0000_0000_0000 == value % 0x1_0000_0000 + (value / 0x1_0000_0000
        % 0x1_0000_0000) * 0x1_0000_0000) by (nonlinear_arith)
        requires
            0 <= value,
    ;
}

/// Counting events of an opcode adds them to the entry of the opcode in the table of counts. Every
/// other entry stays.
pub proof fn events_are_counted(compiler: &AotCompiler, m: Host, opcode: Opcode, count: u32)
    requires
        m.wide(
            m.gprs[Gpr::Rbx].wrapping_add(compiler.host.event_counts_offset),
        ) + 8 * opcode.ordinal() + 8 <= u64::MAX,
    ensures
        ({
            let n = m.run(compiler.event_count_listing(opcode, count));
            let table = m.wide(m.gprs[Gpr::Rbx].wrapping_add(compiler.host.event_counts_offset));
            let entry = (table + 8 * opcode.ordinal()) as u64;
            &&& n.wide(entry) == (m.wide(entry) + count) % 0x1_0000_0000_0000_0000
            &&& forall|at: u64|
                at != entry && at != entry + 4 ==> #[trigger] n.cells[at] == m.cells[at]
            &&& undisturbed(n, m)
        }),
{
    let none = Seq::<Line>::empty();
    let offset = compiler.host.event_counts_offset;
    let find = Line::Op2(
        3,
        Op::Mov,
        Operand::R(Reg::Rdi),
        Operand::M(Size::Implied, Reg::Rbx, Shift::Plus(offset)),
    );
    let place = opcode.ordinal() as u64;
    let bump = Line::Op2(
        3,
        Op::Add,
        Operand::M(Size::Qword, Reg::Rdi, Shift::Eights(place)),
        Operand::I(count as u64),
    );
    laws::lemma_run_empty(m);
    laws::lemma_run_push(m, none, find);
    laws::lemma_run_push(m, none.push(find), bump);
    let table = m.wide(m.gprs[Gpr::Rbx].wrapping_add(offset));
    let entry = (table + 8 * opcode.ordinal()) as u64;
    let x = m.fill(Reg::Rdi, table as u64);
    assert(m.after(find) == x) by {
        reveal(Host::after);
    }
    assert(x.place(Reg::Rdi, Shift::Eights(place)) == entry);
    assert(x.wide(entry) == m.wide(entry));
    let n = x.put_wide(entry, m.wide(entry) + count);
    assert(x.after(bump) == n) by {
        reveal(Host::after);
    }
    lemma_wide(x, entry, m.wide(entry) + count);
}

/// The state after a word was counted if it is touched for the first time in the shard, which is
/// when its last access was in another shard.
pub open spec fn touched(compiler: &AotCompiler, m: Host, addr: Reg) -> Host {
    let shards = m.fill(Reg::Rdi, m.top(ACCESS_MEM_SHARD));
    let asked = shards.after(
        Line::Op2(
            3,
            Op::Cmp,
            Operand::M(Size::Dword, Reg::Rdi, Shift::Index(addr)),
            Operand::R(Reg::R14d),
        ),
    );
    let count = m.gprs[Gpr::Rbx].wrapping_add(compiler.host.local_mem_offset);
    if m.cells[m.top(ACCESS_MEM_SHARD).wrapping_add(m.gprs[addr.gpr()])] == m.low(Gpr::R14) {
        asked
    } else {
        asked.put(count, vm::word(m.cells[count] + 1))
    }
}

/// The code that counts words touched for the first time in the shard counts a word exactly when
/// its last access was in another shard.
pub proof fn first_touch_is_counted(compiler: &AotCompiler, m: Host, pc: u32, addr: Reg)
    requires
        !(addr.gpr() is Rdi),
    ensures
        ({
            let n = touched(compiler, m, addr);
            let last = m.top(ACCESS_MEM_SHARD).wrapping_add(m.gprs[addr.gpr()]);
            let count = m.gprs[Gpr::Rbx].wrapping_add(compiler.host.local_mem_offset);
            &&& flow::executes(compiler.local_memory_listing(pc, addr), m, n)
            &&& n.cells == if m.cells[last] == m.low(Gpr::R14) {
                m.cells
            } else {
                m.cells.insert(count, vm::word(m.cells[count] + 1))
            }
            &&& n.gprs[addr.gpr()] == m.gprs[addr.gpr()]
            &&& n.gprs[Gpr::Rsi] == m.gprs[Gpr::Rsi]
            &&& undisturbed(n, m)
        }),
{
    reveal(Host::after);
    let code = compiler.local_memory_listing(pc, addr);
    let label = Label::Within(pc, Spot::LocalMemoryEnd);
    let find = Line::Op3(
        3,
        Op::Pextrq,
        Operand::R(Reg::Rdi),
        Operand::X(ACCESS_MEM_SHARD),
        Operand::I(1),
    );
    let ask = Line::Op2(
        3,
        Op::Cmp,
        Operand::M(Size::Dword, Reg::Rdi, Shift::Index(addr)),
        Operand::R(Reg::R14d),
    );
    let bump = Line::Op1(
        3,
        Op::Inc,
        Operand::M(Size::Dword, Reg::Rbx, Shift::Plus(compiler.host.local_mem_offset)),
    );
    let n = touched(compiler, m, addr);
    assert(code.len() == 5 && code[0] == find && code[1] == ask && code[3] == bump);
    assert(code[2] == Line::Op1(3, Op::Je, Operand::To(label)));
    assert(code[4] == Line::Here(label));
    let x = m.after(find);
    let y = x.after(ask);
    assert(flow::leads(code, n, 5, n, 5, 0));
    assert(flow::steps(code, n, 4, n, 5));
    flow::lemma_step(code, n, 4, n, 5, n, 5, 0);
    if m.cells[m.top(ACCESS_MEM_SHARD).wrapping_add(m.gprs[addr.gpr()])] == m.low(Gpr::R14) {
        assert(n == y && y.flags.equal);
        assert(flow::steps(code, y, 2, n, 4));
        flow::lemma_step(code, y, 2, n, 4, n, 5, 1);
        assert(flow::steps(code, x, 1, y, 2));
        flow::lemma_step(code, x, 1, y, 2, n, 5, 2);
        assert(flow::steps(code, m, 0, x, 1));
        flow::lemma_step(code, m, 0, x, 1, n, 5, 3);
    } else {
        assert(n == y.after(bump) && !y.flags.equal);
        assert(flow::steps(code, y, 3, n, 4));
        flow::lemma_step(code, y, 3, n, 4, n, 5, 1);
        assert(flow::steps(code, y, 2, y, 3));
        flow::lemma_step(code, y, 2, y, 3, n, 5, 2);
        assert(flow::steps(code, x, 1, y, 2));
        flow::lemma_step(code, x, 1, y, 2, n, 5, 3);
        assert(flow::steps(code, m, 0, x, 1));
        flow::lemma_step(code, m, 0, x, 1, n, 5, 4);
    }
}

/// A word of guest memory is counted at most once in a shard: once its access was counted and
/// noted, a further access in the same shard counts nothing.
pub proof fn a_word_is_counted_once_per_shard(
    compiler: &AotCompiler,
    m: Host,
    addr: Reg,
    clk: u32,
)
    requires
        !(addr.gpr() is Rdi || addr.gpr() is Rdx),
        m.gprs[Gpr::R12] == clk + DEFAULT_CLK_INC,
        m.gprs[Gpr::R12] <= u32::MAX,
        m.top(ACCESS_MEM_SHARD) != m.top(ACCESS_MEM_CLK),
    ensures
        ({
            let n = touched(compiler, m, addr).run(AotCompiler::access_memory_meta_listing(addr));
            touched(compiler, n, addr).cells == n.cells
        }),
{
    let counted = touched(compiler, m, addr);
    let n = counted.run(AotCompiler::access_memory_meta_listing(addr));
    first_touch_is_counted(compiler, m, 0, addr);
    assert(counted.gprs[Gpr::R12] == m.gprs[Gpr::R12]);
    memory_accesses_are_noted(counted, addr, clk);
    first_touch_is_counted(compiler, n, 0, addr);
    assert(n.gprs[Gpr::R14] == counted.gprs[Gpr::R14]);
    let offset = m.gprs[addr.gpr()];
    let shards = m.top(ACCESS_MEM_SHARD);
    let clocks = m.top(ACCESS_MEM_CLK);
    assert(shards.wrapping_add(offset) != clocks.wrapping_add(offset));
}

/// Listings that disturb nothing, one behind the other.
pub(crate) proof fn lemma_quiet(m: Host, a: Seq<Line>, b: Seq<Line>)
    requires
        flow::all_plain(a),
        flow::all_plain(b),
        undisturbed(m.run(a), m),
        undisturbed(m.run(a).run(b), m.run(a)),
    ensures
        flow::all_plain(a + b),
        undisturbed(m.run(a + b), m),
{
    laws::runs_compose(m, a, b);
    flow::lemma_plain_sum(a, b);
    assert forall|gpr: Gpr|
        !(gpr is Rdi || gpr is Rsi || gpr is Rdx) implies #[trigger] m.run(a + b).gprs[gpr]
        == m.gprs[gpr] by {
        assert(m.run(a).gprs[gpr] == m.gprs[gpr]);
    }
}

/// Counting events disturbs nothing.
pub(crate) proof fn lemma_counting(compiler: &AotCompiler, m: Host, opcode: Opcode, count: u32)
    ensures
        flow::all_plain(compiler.event_count_listing(opcode, count)),
        undisturbed(m.run(compiler.event_count_listing(opcode, count)), m),
{
    let none = Seq::<Line>::empty();
    let find = Line::Op2(
        3,
        Op::Mov,
        Operand::R(Reg::Rdi),
        Operand::M(Size::Implied, Reg::Rbx, Shift::Plus(compiler.host.event_counts_offset)),
    );
    let bump = Line::Op2(
        3,
        Op::Add,
        Operand::M(Size::Qword, Reg::Rdi, Shift::Eights(opcode.ordinal() as u64)),
        Operand::I(count as u64),
    );
    laws::lemma_run_empty(m);
    laws::lemma_run_push(m, none, find);
    laws::lemma_run_push(m, none.push(find), bump);
    let x = m.after(find);
    assert(undisturbed(x, m)) by {
        reveal(Host::after);
    }
    let n = x.after(bump);
    assert(n.gprs == x.gprs && n.lanes == x.lanes && n.words == x.words) by {
        reveal(Host::after);
    }
}

/// A state in which nothing was disturbed holds the same guest.
pub(crate) proof fn lemma_undisturbed(n: Host, m: Host)
    requires
        undisturbed(n, m),
    ensures
        n.keeps_the_rest(m),
        forall|r: u8| r < HOSTED_REGISTERS ==> #[trigger] n.guest(r) == m.guest(r),
{
    reveal(Host::keeps_the_rest);
}

/// The metering code in front of a load, which counts the additions of its address too.
pub open spec fn load_front(compiler: &AotCompiler, i: Instruction) -> Seq<Line> {
    let code = Seq::<Line>::empty();
    if compiler.executor_mode is Checkpoint {
        let code = code + compiler.event_count_listing(i.opcode, 1);
        let code = code + compiler.event_count_listing(Opcode::ADD, 2);
        let code = code + AotCompiler::access_register_meta_addr_listing();
        let code = code + AotCompiler::access_register_meta_listing(
            i.op_b,
            MemoryAccessPosition::B,
        );
        code + AotCompiler::access_register_meta_listing(i.op_a as u32, MemoryAccessPosition::A)
    } else {
        code
    }
}

/// The metering code in front of a store.
pub open spec fn store_front(compiler: &AotCompiler, i: Instruction) -> Seq<Line> {
    let code = Seq::<Line>::empty();
    if compiler.executor_mode is Checkpoint {
        let code = code + compiler.event_count_listing(i.opcode, 1);
        let code = code + AotCompiler::access_register_meta_addr_listing();
        let code = code + AotCompiler::access_register_meta_listing(
            i.op_b,
            MemoryAccessPosition::B,
        );
        code + AotCompiler::access_register_meta_listing(i.op_a as u32, MemoryAccessPosition::A)
    } else {
        code
    }
}

/// Listings behind which events are counted.
proof fn lemma_then_count(
    compiler: &AotCompiler,
    m: Host,
    code: Seq<Line>,
    opcode: Opcode,
    count: u32,
)
    requires
        flow::all_plain(code),
        undisturbed(m.run(code), m),
    ensures
        flow::all_plain(code + compiler.event_count_listing(opcode, count)),
        undisturbed(m.run(code + compiler.event_count_listing(opcode, count)), m),
{
    lemma_counting(compiler, m.run(code), opcode, count);
    lemma_quiet(m, code, compiler.event_count_listing(opcode, count));
}

/// Listings behind which the tables of the register accesses are found.
proof fn lemma_then_find(m: Host, code: Seq<Line>)
    requires
        flow::all_plain(code),
        undisturbed(m.run(code), m),
    ensures
        flow::all_plain(code + AotCompiler::access_register_meta_addr_listing()),
        undisturbed(m.run(code + AotCompiler::access_register_meta_addr_listing()), m),
{
    lemma_find(m.run(code));
    lemma_quiet(m, code, AotCompiler::access_register_meta_addr_listing());
}

/// Listings behind which the access of a register is noted.
proof fn lemma_then_note(m: Host, code: Seq<Line>, reg: u32, pos: MemoryAccessPosition)
    requires
        flow::all_plain(code),
        undisturbed(m.run(code), m),
    ensures
        ({
            let done = code + AotCompiler::access_register_meta_listing(reg, pos);
            flow::all_plain(done) && undisturbed(m.run(done), m)
        }),
        ({
            let done = code + AotCompiler::access_register_meta_control_listing(reg, pos);
            flow::all_plain(done) && undisturbed(m.run(done), m)
        }),
{
    let near = (DEFAULT_CLK_INC - pos.offset()) as u32;
    let far = (DEFAULT_CLK_INC + DEFAULT_CLK_INC - pos.offset()) as u32;
    assert(AotCompiler::access_register_meta_listing(reg, pos) == noting(reg, near));
    assert(AotCompiler::access_register_meta_control_listing(reg, pos) == noting(reg, far));
    lemma_note(m.run(code), reg, near);
    lemma_note(m.run(code), reg, far);
    lemma_quiet(m, code, noting(reg, near));
    lemma_quiet(m, code, noting(reg, far));
}

/// The metering code of an arithmetic or logic instruction disturbs nothing.
proof fn lemma_alu_access(m: Host, i: Instruction)
    ensures
        flow::all_plain(AotCompiler::alu_access_listing(i)),
        undisturbed(m.run(AotCompiler::alu_access_listing(i)), m),
{
    let none = Seq::<Line>::empty();
    laws::lemma_run_empty(m);
    lemma_then_find(m, none);
    let code = none + AotCompiler::access_register_meta_addr_listing();
    lemma_then_note(m, code, i.op_c, MemoryAccessPosition::C);
    let code = if i.imm_c {
        code
    } else {
        code + AotCompiler::access_register_meta_listing(i.op_c, MemoryAccessPosition::C)
    };
    lemma_then_note(m, code, i.op_b, MemoryAccessPosition::B);
    let code = if i.imm_b {
        code
    } else {
        code + AotCompiler::access_register_meta_listing(i.op_b, MemoryAccessPosition::B)
    };
    if i.opcode.lo_hi() {
        let lo = Register::LO.number() as u32;
        lemma_then_note(m, code, lo, MemoryAccessPosition::A);
        lemma_then_note(
            m,
            code + AotCompiler::access_register_meta_listing(lo, MemoryAccessPosition::A),
            Register::HI.number() as u32,
            MemoryAccessPosition::HI,
        );
    } else {
        lemma_then_note(m, code, i.op_a as u32, MemoryAccessPosition::A);
    }
}

/// The metering code in front of an instruction disturbs nothing that the instruction works on.
pub proof fn metering_disturbs_nothing(compiler: &AotCompiler, m: Host, i: Instruction)
    ensures
        undisturbed(m.run(AotCompiler::alu_access_listing(i)), m),
        undisturbed(m.run(load_front(compiler, i)), m),
        undisturbed(m.run(store_front(compiler, i)), m),
        undisturbed(m.run(compiler.branch_access_listing(i)), m),
        undisturbed(m.run(compiler.jump_access_listing(i)), m),
        flow::all_plain(AotCompiler::alu_access_listing(i)),
        flow::all_plain(load_front(compiler, i)),
        flow::all_plain(store_front(compiler, i)),
        flow::all_plain(compiler.branch_access_listing(i)),
        flow::all_plain(compiler.jump_access_listing(i)),
{
    let none = Seq::<Line>::empty();
    let a = i.op_a as u32;
    let find = AotCompiler::access_register_meta_addr_listing();
    let note_b = AotCompiler::access_register_meta_listing(i.op_b, MemoryAccessPosition::B);
    let control_b = AotCompiler::access_register_meta_control_listing(
        i.op_b,
        MemoryAccessPosition::B,
    );
    laws::lemma_run_empty(m);
    lemma_alu_access(m, i);
    lemma_then_count(compiler, m, none, i.opcode, 1);
    let one = none + compiler.event_count_listing(i.opcode, 1);
    lemma_then_count(compiler, m, one, Opcode::ADD, 2);
    lemma_then_count(compiler, m, one, Opcode::ADD, 1);
    let two = one + compiler.event_count_listing(Opcode::ADD, 2);
    let more = one + compiler.event_count_listing(Opcode::ADD, 1);
    lemma_then_count(compiler, m, more, Opcode::SLT, 2);
    let most = more + compiler.event_count_listing(Opcode::SLT, 2);
    lemma_then_find(m, one);
    lemma_then_find(m, two);
    lemma_then_find(m, more);
    lemma_then_find(m, most);
    lemma_then_note(m, two + find, i.op_b, MemoryAccessPosition::B);
    lemma_then_note(m, two + find + note_b, a, MemoryAccessPosition::A);
    lemma_then_note(m, one + find, i.op_b, MemoryAccessPosition::B);
    lemma_then_note(m, one + find + note_b, a, MemoryAccessPosition::A);
    lemma_then_note(m, one + find + control_b, a, MemoryAccessPosition::A);
    lemma_then_note(m, one + find, a, MemoryAccessPosition::A);
    lemma_then_note(m, more + find, a, MemoryAccessPosition::A);
    lemma_then_note(m, most + find, a, MemoryAccessPosition::A);
}

/// The metering code between finding an address and using it: it counts the word if this is its
/// first access in the shard, and notes the access.
pub open spec fn middle(
    compiler: &AotCompiler,
    pc: u32,
    aligned: bool,
) -> Seq<Line> {
    let code = Seq::<Line>::empty();
    if compiler.executor_mode is Checkpoint {
        if aligned {
            code + compiler.local_memory_listing(pc, Reg::Rsi)
                + AotCompiler::access_memory_meta_listing(Reg::Rsi)
        } else {
            code.push(Line::Op2(3, Op::Mov, Operand::R(Reg::Eax), Operand::R(Reg::Esi))).push(
                Line::Op2(3, Op::And, Operand::R(Reg::Eax), Operand::H(0xffff_fffc)),
            ) + compiler.local_memory_listing(pc, Reg::Rax)
                + AotCompiler::access_memory_meta_listing(Reg::Rax)
        }
    } else {
        code
    }
}

/// Noting the access of a word disturbs nothing.
proof fn lemma_memory_note(m: Host, addr: Reg)
    requires
        addr is Rsi || addr is Rax,
    ensures
        ({
            let n = m.run(AotCompiler::access_memory_meta_listing(addr));
            undisturbed(n, m) && n.gprs[Gpr::Rsi] == m.gprs[Gpr::Rsi]
        }),
        flow::all_plain(AotCompiler::access_memory_meta_listing(addr)),
{
    let none = Seq::<Line>::empty();
    let shards = Line::Op3(
        3,
        Op::Pextrq,
        Operand::R(Reg::Rdi),
        Operand::X(ACCESS_MEM_SHARD),
        Operand::I(1),
    );
    let shard = Line::Op2(
        3,
        Op::Mov,
        Operand::M(Size::Dword, Reg::Rdi, Shift::Index(addr)),
        Operand::R(Reg::R14d),
    );
    let clock = Line::Op2(
        3,
        Op::Lea,
        Operand::R(Reg::Rdx),
        Operand::M(Size::Implied, Reg::R12, Shift::Minus(DEFAULT_CLK_INC as u64)),
    );
    let clocks = Line::Op3(
        3,
        Op::Pextrq,
        Operand::R(Reg::Rdi),
        Operand::X(ACCESS_MEM_CLK),
        Operand::I(1),
    );
    let stamp = Line::Op2(
        3,
        Op::Mov,
        Operand::M(Size::Implied, Reg::Rdi, Shift::Index(addr)),
        Operand::R(Reg::Edx),
    );
    reveal(Host::after);
    let code = none.push(shards).push(shard).push(clock).push(clocks).push(stamp);
    assert(AotCompiler::access_memory_meta_listing(addr) =~= code);
    laws::lemma_run_push(m, none, shards);
    laws::lemma_run_push(m, none.push(shards), shard);
    laws::lemma_run_push(m, none.push(shards).push(shard), clock);
    laws::lemma_run_push(m, none.push(shards).push(shard).push(clock), clocks);
    laws::lemma_run_push(m, none.push(shards).push(shard).push(clock).push(clocks), stamp);
}

/// The metering code in the middle of a load or store keeps the address.
pub(crate) proof fn lemma_middle(
    compiler: &AotCompiler,
    m: Host,
    pc: u32,
    aligned: bool,
) -> (n: Host)
    ensures
        flow::executes(middle(compiler, pc, aligned), m, n),
        n.lanes == m.lanes,
        n.words == m.words,
        n.gprs[Gpr::Rsi] == m.gprs[Gpr::Rsi],
        aligned ==> n.gprs[Gpr::Rax] == m.gprs[Gpr::Rax],
        forall|gpr: Gpr| !laws::is_scratch(gpr) ==> #[trigger] n.gprs[gpr] == m.gprs[gpr],
{
    let none = Seq::<Line>::empty();
    laws::lemma_run_empty(m);
    if compiler.executor_mode is Checkpoint {
        let (start, addr) = if aligned {
            (none, Reg::Rsi)
        } else {
            let copy = Line::Op2(3, Op::Mov, Operand::R(Reg::Eax), Operand::R(Reg::Esi));
            let align = Line::Op2(3, Op::And, Operand::R(Reg::Eax), Operand::H(0xffff_fffc));
            laws::lemma_run_push(m, none, copy);
            laws::lemma_run_push(m, none.push(copy), align);
            reveal(Host::after);
            (none.push(copy).push(align), Reg::Rax)
        };
        let x = m.run(start);
        let y = touched(compiler, x, addr);
        let note = AotCompiler::access_memory_meta_listing(addr);
        let n = y.run(note);
        flow::lemma_plain_listing(start, m);
        first_touch_is_counted(compiler, x, pc, addr);
        flow::lemma_joined(start, compiler.local_memory_listing(pc, addr), m, x, y);
        lemma_memory_note(y, addr);
        flow::lemma_plain_listing(note, y);
        flow::lemma_joined(start + compiler.local_memory_listing(pc, addr), note, m, y, n);
        assert forall|gpr: Gpr| !laws::is_scratch(gpr) implies #[trigger] n.gprs[gpr]
            == m.gprs[gpr] by {
            assert(y.gprs[gpr] == x.gprs[gpr]);
            assert(n.gprs[gpr] == y.gprs[gpr]);
        }
        n
    } else {
        flow::lemma_plain_listing(none, m);
        m
    }
}

} // verus!
