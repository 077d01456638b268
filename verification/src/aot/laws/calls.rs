//! A call into the executor hands the guest registers over and takes them back.
use vstd::prelude::*;

use crate::aot::common;
use crate::aot::common::{HOSTED_REGISTERS, REG_ADDR_SPACE};
use crate::aot::host::{Gpr, Line, Op, Operand, Reg, Shift, Size};
use crate::aot::laws;
use crate::aot::laws::Host;
use crate::aot::AotCompiler;
use crate::vm;

verus! {

/// Copying the holders of the first guest registers to their lanes.
proof fn lemma_holders_to_lanes(m: Host, n: int)
    requires
        0 <= n <= HOSTED_REGISTERS,
    ensures
        ({
            let x = m.run(common::holders_to_lanes(n));
            &&& x == Host { lanes: x.lanes, ..m }
            &&& forall|r: u8|
                r < HOSTED_REGISTERS ==> #[trigger] x.lanes[(common::vector(r), common::lane(r))]
                    == if r < n {
                    m.guest(r)
                } else {
                    m.lanes[(common::vector(r), common::lane(r))]
                }
            &&& forall|v: u8, l: u8|
                l >= 2 && v != 13 ==> #[trigger] x.lanes[(v, l)] == m.lanes[(v, l)]
        }),
    decreases n,
{
    if n > 0 {
        lemma_holders_to_lanes(m, n - 1);
        let last = (n - 1) as u8;
        let w = m.run(common::holders_to_lanes(n - 1));
        match common::overriding(last) {
            Some(held) => {
                let line = Line::Op3(
                    3,
                    Op::Pinsrd,
                    Operand::X(common::vector(last)),
                    Operand::R(held),
                    Operand::I(common::lane(last) as u64),
                );
                assert(common::holders_to_lanes(n) =~= common::holders_to_lanes(n - 1).push(line));
                laws::lemma_run_push(m, common::holders_to_lanes(n - 1), line);
                reveal(Host::after);
            },
            None => {
                assert(common::holders_to_lanes(n) =~= common::holders_to_lanes(n - 1));
            },
        }
        let x = m.run(common::holders_to_lanes(n));
        assert forall|r: u8| r < HOSTED_REGISTERS implies #[trigger] x.lanes[(
            common::vector(r),
            common::lane(r),
        )] == if r < n {
            m.guest(r)
        } else {
            m.lanes[(common::vector(r), common::lane(r))]
        } by {
            if r != last {
                common::places_are_distinct(r, last);
                assert(w.lanes[(common::vector(r), common::lane(r))] == if r < n - 1 {
                    m.guest(r)
                } else {
                    m.lanes[(common::vector(r), common::lane(r))]
                });
            } else {
                assert(w.lanes[(common::vector(r), common::lane(r))] == m.lanes[(
                    common::vector(r),
                    common::lane(r),
                )]);
            }
        }
    }
}

/// Copying the lanes of the first guest registers to their holders.
proof fn lemma_lanes_to_holders(m: Host, n: int)
    requires
        0 <= n <= HOSTED_REGISTERS,
    ensures
        ({
            let x = m.run(common::lanes_to_holders(n));
            &&& x == Host { gprs: x.gprs, ..m }
            &&& forall|r: u8|
                r < n && #[trigger] common::overriding(r) is Some ==> x.low(
                    common::overriding(r)->0.gpr(),
                ) == m.lanes[(common::vector(r), common::lane(r))]
            &&& forall|gpr: Gpr|
                !laws::holds_a_guest(gpr) ==> #[trigger] x.gprs[gpr] == m.gprs[gpr]
        }),
    decreases n,
{
    if n > 0 {
        lemma_lanes_to_holders(m, n - 1);
        let last = (n - 1) as u8;
        let w = m.run(common::lanes_to_holders(n - 1));
        match common::overriding(last) {
            Some(held) => {
                let line = Line::Op3(
                    3,
                    Op::Pextrd,
                    Operand::R(held),
                    Operand::X(common::vector(last)),
                    Operand::I(common::lane(last) as u64),
                );
                assert(common::lanes_to_holders(n) =~= common::lanes_to_holders(n - 1).push(line));
                laws::lemma_run_push(m, common::lanes_to_holders(n - 1), line);
                reveal(Host::after);
            },
            None => {
                assert(common::lanes_to_holders(n) =~= common::lanes_to_holders(n - 1));
            },
        }
    }
}

/// Where a guest register is in the memory of the executor.
pub open spec fn slot(space: u64, reg: u8) -> u64 {
    space.wrapping_add((4 * reg) as u64)
}

/// Storing the first vector registers.
proof fn lemma_low_stores(m: Host, n: int)
    requires
        0 <= n <= 16,
    ensures
        ({
            let x = m.run(AotCompiler::low_stores(n));
            let space = m.gprs[Gpr::R14];
            &&& x == Host { cells: x.cells, ..m }
            &&& forall|r: u8|
                r < 2 * n ==> #[trigger] x.cells[slot(space, r)] == m.lanes[(
                    common::vector(r),
                    common::lane(r),
                )]
            &&& forall|at: u64|
                at.wrapping_sub(space) >= 8 * n ==> #[trigger] x.cells[at] == m.cells[at]
        }),
    decreases n,
{
    if n > 0 {
        lemma_low_stores(m, n - 1);
        let w = m.run(AotCompiler::low_stores(n - 1));
        let space = m.gprs[Gpr::R14];
        let v = (n - 1) as u8;
        let line = Line::Op2(
            3,
            Op::Movq,
            Operand::M(Size::Implied, Reg::R14, Shift::Eights((n - 1) as u64)),
            Operand::X(v),
        );
        laws::lemma_run_push(m, AotCompiler::low_stores(n - 1), line);
        let x = m.run(AotCompiler::low_stores(n));
        let at = space.wrapping_add((8 * (n - 1)) as u64);
        assert(x == w.put(at, m.lanes[(v, 0)]).put(at.wrapping_add(4), m.lanes[(v, 1)])) by {
            reveal(Host::after);
        }
        assert forall|r: u8| r < 2 * n implies #[trigger] x.cells[slot(space, r)] == m.lanes[(
            common::vector(r),
            common::lane(r),
        )] by {
            if r < 2 * (n - 1) {
                assert(w.cells[slot(space, r)] == m.lanes[(common::vector(r), common::lane(r))]);
            } else {
                assert(r / 2 == v && (r % 2 == 0 || r % 2 == 1));
            }
        }
    }
}

/// Loading the first vector registers.
proof fn lemma_low_loads(m: Host, n: int)
    requires
        0 <= n <= 16,
    ensures
        ({
            let x = m.run(AotCompiler::low_loads(n));
            let space = m.gprs[Gpr::R14];
            &&& x == Host { lanes: x.lanes, gprs: x.gprs, ..m }
            &&& forall|gpr: Gpr| !(gpr is Rdi) ==> #[trigger] x.gprs[gpr] == m.gprs[gpr]
            &&& forall|r: u8|
                r < 2 * n ==> #[trigger] x.lanes[(common::vector(r), common::lane(r))]
                    == m.cells[slot(space, r)]
            &&& forall|v: u8, l: u8|
                l >= 2 || v >= n ==> #[trigger] x.lanes[(v, l)] == m.lanes[(v, l)]
        }),
    decreases n,
{
    if n > 0 {
        lemma_low_loads(m, n - 1);
        let w = m.run(AotCompiler::low_loads(n - 1));
        let space = m.gprs[Gpr::R14];
        let v = (n - 1) as u8;
        let take = Line::Op2(
            3,
            Op::Mov,
            Operand::R(Reg::Rdi),
            Operand::M(Size::Implied, Reg::R14, Shift::Eights((n - 1) as u64)),
        );
        let place = Line::Op3(3, Op::Pinsrq, Operand::X(v), Operand::R(Reg::Rdi), Operand::I(0));
        laws::lemma_run_push(m, AotCompiler::low_loads(n - 1), take);
        laws::lemma_run_push(m, AotCompiler::low_loads(n - 1).push(take), place);
        let x = m.run(AotCompiler::low_loads(n));
        let at = space.wrapping_add((8 * (n - 1)) as u64);
        let low = m.cells[at];
        let high = m.cells[at.wrapping_add(4)];
        let value = (low + high * 0x1_0000_0000) as u64;
        let y = w.after(take);
        assert(y == w.fill(Reg::Rdi, value)) by {
            reveal(Host::after);
        }
        assert(vm::word(value as int) == low && vm::high_word(value as int) == high);
        assert(x == Host { lanes: w.lanes.insert((v, 0), low).insert((v, 1), high), ..y }) by {
            reveal(Host::after);
        }
        assert forall|r: u8| r < 2 * n implies #[trigger] x.lanes[(
            common::vector(r),
            common::lane(r),
        )] == m.cells[slot(space, r)] by {
            if r < 2 * (n - 1) {
                assert(w.lanes[(common::vector(r), common::lane(r))] == m.cells[slot(space, r)]);
            } else {
                assert(r / 2 == v && (r % 2 == 0 || r % 2 == 1));
            }
        }
    }
}

/// The lines that store all the lanes of guest registers.
spec fn stores() -> Seq<Line> {
    AotCompiler::low_stores(16).push(
        Line::Op3(
            3,
            Op::Pextrq,
            Operand::M(Size::Implied, Reg::R14, Shift::Eights(16)),
            Operand::X(13),
            Operand::I(1),
        ),
    )
}

proof fn lemma_stores(m: Host)
    ensures
        ({
            let x = m.run(stores());
            let space = m.gprs[Gpr::R14];
            &&& x == Host { cells: x.cells, ..m }
            &&& forall|r: u8|
                r < HOSTED_REGISTERS ==> #[trigger] x.cells[slot(space, r)] == m.lanes[(
                    common::vector(r),
                    common::lane(r),
                )]
            &&& forall|at: u64|
                at.wrapping_sub(space) >= 4 * HOSTED_REGISTERS ==> #[trigger] x.cells[at]
                    == m.cells[at]
        }),
{
    let space = m.gprs[Gpr::R14];
    lemma_low_stores(m, 16);
    laws::lemma_run_push(m, AotCompiler::low_stores(16), stores().last());
    assert(stores() =~= AotCompiler::low_stores(16).push(stores().last()));
    let w = m.run(AotCompiler::low_stores(16));
    let x = m.run(stores());
    let at = space.wrapping_add(128);
    assert(x == w.put(at, m.lanes[(13, 2)]).put(at.wrapping_add(4), m.lanes[(13, 3)])) by {
        reveal(Host::after);
    }
    assert forall|r: u8| r < HOSTED_REGISTERS implies #[trigger] x.cells[slot(space, r)]
        == m.lanes[(common::vector(r), common::lane(r))] by {
        if r < 32 {
            assert(w.cells[slot(space, r)] == m.lanes[(common::vector(r), common::lane(r))]);
        }
    }
}

/// Storing the guest registers.
proof fn lemma_save(m: Host)
    ensures
        ({
            let n = m.run(AotCompiler::save_xmm_regs_listing());
            let space = m.top(REG_ADDR_SPACE);
            &&& n == Host { lanes: n.lanes, cells: n.cells, gprs: n.gprs, ..m }
            &&& forall|gpr: Gpr| #[trigger] n.gprs[gpr] == m.gprs[gpr]
            &&& forall|r: u8|
                r < HOSTED_REGISTERS ==> #[trigger] n.cells[slot(space, r)] == m.guest(r)
            &&& forall|at: u64|
                at.wrapping_sub(space) >= 4 * HOSTED_REGISTERS ==> #[trigger] n.cells[at]
                    == m.cells[at]
            &&& forall|v: u8, l: u8|
                l >= 2 && v != 13 ==> #[trigger] n.lanes[(v, l)] == m.lanes[(v, l)]
        }),
{
    let none = Seq::<Line>::empty();
    let space = m.top(REG_ADDR_SPACE);
    let copies = common::holders_to_lanes(HOSTED_REGISTERS as int);
    let keep = Line::Op1(4, Op::Push, Operand::R(Reg::R14));
    let find = Line::Op3(
        4,
        Op::Pextrq,
        Operand::R(Reg::R14),
        Operand::X(REG_ADDR_SPACE),
        Operand::I(1),
    );
    let back = Line::Op1(4, Op::Pop, Operand::R(Reg::R14));
    let c1 = none + copies;
    assert(c1 =~= copies);
    let c2 = c1.push(keep);
    let c3 = c2.push(find);
    let c4 = c3 + stores();
    assert(AotCompiler::save_xmm_regs_listing() =~= c4.push(back));
    lemma_holders_to_lanes(m, HOSTED_REGISTERS as int);
    laws::lemma_run_push(m, c1, keep);
    laws::lemma_run_push(m, c2, find);
    laws::runs_compose(m, c3, stores());
    laws::lemma_run_push(m, c4, back);
    let m1 = m.run(c1);
    let m3 = m.run(c3);
    assert(m1.top(REG_ADDR_SPACE) == space);
    assert(m3 == Host {
        stack: m.stack.push(m.gprs[Gpr::R14]),
        gprs: m.gprs.insert(Gpr::R14, space),
        ..m1
    }) by {
        reveal(Host::after);
    }
    lemma_stores(m3);
    let m4 = m.run(c4);
    let n = m.run(AotCompiler::save_xmm_regs_listing());
    assert(n == m4.after(back));
    assert(n.gprs == m3.gprs.insert(Gpr::R14, m.gprs[Gpr::R14]) && n.stack =~= m.stack && n.cells
        == m4.cells && n.lanes == m1.lanes && n.words == m.words && n.flags == m.flags) by {
        reveal(Host::after);
    }
    assert forall|r: u8| r < HOSTED_REGISTERS implies #[trigger] n.cells[slot(space, r)]
        == m.guest(r) by {
        assert(m1.lanes[(common::vector(r), common::lane(r))] == m.guest(r));
        assert(m4.cells[slot(space, r)] == m3.lanes[(common::vector(r), common::lane(r))]);
    }
}

/// The lines that load all the lanes of guest registers.
spec fn loads() -> Seq<Line> {
    Seq::<Line>::empty().push(Line::Op1(4, Op::Push, Operand::R(Reg::R14))).push(
        Line::Op3(
            4,
            Op::Pextrq,
            Operand::R(Reg::R14),
            Operand::X(REG_ADDR_SPACE),
            Operand::I(1),
        ),
    ) + AotCompiler::low_loads(16)
}

/// The lines that load the lanes of the last guest registers.
spec fn last_loads() -> Seq<Line> {
    Seq::<Line>::empty().push(
        Line::Op2(
            3,
            Op::Mov,
            Operand::R(Reg::Rdi),
            Operand::M(Size::Implied, Reg::R14, Shift::Eights(16)),
        ),
    ).push(Line::Op3(3, Op::Pinsrq, Operand::X(13), Operand::R(Reg::Rdi), Operand::I(1))).push(
        Line::Op1(4, Op::Pop, Operand::R(Reg::R14)),
    )
}

proof fn lemma_loads(m: Host)
    ensures
        ({
            let n = m.run(loads());
            let space = m.top(REG_ADDR_SPACE);
            &&& n == Host {
                lanes: n.lanes,
                gprs: n.gprs,
                stack: m.stack.push(m.gprs[Gpr::R14]),
                ..m
            }
            &&& forall|r: u8|
                r < 32 ==> #[trigger] n.lanes[(common::vector(r), common::lane(r))]
                    == m.cells[slot(space, r)]
            &&& n.gprs[Gpr::R14] == space
            &&& forall|gpr: Gpr|
                !(gpr is Rdi || gpr is R14) ==> #[trigger] n.gprs[gpr] == m.gprs[gpr]
            &&& forall|v: u8, l: u8| l >= 2 ==> #[trigger] n.lanes[(v, l)] == m.lanes[(v, l)]
        }),
{
    let none = Seq::<Line>::empty();
    let space = m.top(REG_ADDR_SPACE);
    let keep = Line::Op1(4, Op::Push, Operand::R(Reg::R14));
    let find = Line::Op3(
        4,
        Op::Pextrq,
        Operand::R(Reg::R14),
        Operand::X(REG_ADDR_SPACE),
        Operand::I(1),
    );
    let c2 = none.push(keep).push(find);
    laws::lemma_run_empty(m);
    laws::lemma_run_push(m, none, keep);
    laws::lemma_run_push(m, none.push(keep), find);
    laws::runs_compose(m, c2, AotCompiler::low_loads(16));
    let m2 = m.run(c2);
    assert(m2 == Host {
        stack: m.stack.push(m.gprs[Gpr::R14]),
        gprs: m.gprs.insert(Gpr::R14, space),
        ..m
    }) by {
        reveal(Host::after);
    }
    lemma_low_loads(m2, 16);
    let n = m.run(loads());
    assert forall|r: u8| r < 32 implies #[trigger] n.lanes[(common::vector(r), common::lane(r))]
        == m.cells[slot(space, r)] by {
        assert(n.lanes[(common::vector(r), common::lane(r))] == m2.cells[slot(space, r)]);
    }
    assert forall|gpr: Gpr| !(gpr is Rdi || gpr is R14) implies #[trigger] n.gprs[gpr]
        == m.gprs[gpr] by {
        assert(n.gprs[gpr] == m2.gprs[gpr]);
    }
    assert(n.gprs[Gpr::R14] == m2.gprs[Gpr::R14]);
}

proof fn lemma_last_loads(m: Host)
    requires
        m.stack.len() > 0,
    ensures
        ({
            let n = m.run(last_loads());
            let at = m.gprs[Gpr::R14].wrapping_add(128);
            &&& n == Host { lanes: n.lanes, gprs: n.gprs, stack: m.stack.drop_last(), ..m }
            &&& n.lanes == m.lanes.insert((13, 2), m.cells[at]).insert(
                (13, 3),
                m.cells[at.wrapping_add(4)],
            )
            &&& n.gprs[Gpr::R14] == m.stack.last()
            &&& forall|gpr: Gpr|
                !(gpr is Rdi || gpr is R14) ==> #[trigger] n.gprs[gpr] == m.gprs[gpr]
        }),
{
    let none = Seq::<Line>::empty();
    let take = last_loads()[0];
    let rest = last_loads()[1];
    let back = last_loads()[2];
    let c1 = none.push(take);
    let c2 = c1.push(rest);
    laws::lemma_run_empty(m);
    laws::lemma_run_push(m, none, take);
    laws::lemma_run_push(m, c1, rest);
    laws::lemma_run_push(m, c2, back);
    let at = m.gprs[Gpr::R14].wrapping_add(128);
    let low = m.cells[at];
    let high = m.cells[at.wrapping_add(4)];
    let value = (low + high * 0x1_0000_0000) as u64;
    let m1 = m.run(c1);
    assert(m1 == m.fill(Reg::Rdi, value)) by {
        reveal(Host::after);
    }
    assert(vm::word(value as int) == low && vm::high_word(value as int) == high);
    let m2 = m.run(c2);
    assert(m2 == Host { lanes: m.lanes.insert((13, 2), low).insert((13, 3), high), ..m1 }) by {
        reveal(Host::after);
    }
    assert(m.run(last_loads()) == Host {
        gprs: m2.gprs.insert(Gpr::R14, m.stack.last()),
        stack: m.stack.drop_last(),
        ..m2
    }) by {
        reveal(Host::after);
    }
}

/// Loading the guest registers.
#[verifier::spinoff_prover]
proof fn lemma_load(m: Host)
    ensures
        ({
            let n = m.run(AotCompiler::load_xmm_regs_listing());
            let space = m.top(REG_ADDR_SPACE);
            &&& n == Host { lanes: n.lanes, gprs: n.gprs, ..m }
            &&& forall|r: u8|
                r < HOSTED_REGISTERS ==> #[trigger] n.guest(r) == m.cells[slot(space, r)]
            &&& forall|gpr: Gpr|
                !(gpr is Rdi || laws::holds_a_guest(gpr)) ==> #[trigger] n.gprs[gpr] == m.gprs[gpr]
            &&& forall|v: u8, l: u8|
                l >= 2 && v != 13 ==> #[trigger] n.lanes[(v, l)] == m.lanes[(v, l)]
        }),
{
    let space = m.top(REG_ADDR_SPACE);
    let copies = common::lanes_to_holders(HOSTED_REGISTERS as int);
    let c6 = loads() + last_loads();
    assert(AotCompiler::load_xmm_regs_listing() =~= c6 + copies);
    laws::runs_compose(m, loads(), last_loads());
    laws::runs_compose(m, c6, copies);
    lemma_loads(m);
    let m3 = m.run(loads());
    lemma_last_loads(m3);
    let m6 = m.run(c6);
    assert(m3.stack.drop_last() =~= m.stack);
    lemma_lanes_to_holders(m6, HOSTED_REGISTERS as int);
    let n = m.run(AotCompiler::load_xmm_regs_listing());
    assert(n == m6.run(copies));
    assert forall|r: u8| r < HOSTED_REGISTERS implies #[trigger] m6.lanes[(
        common::vector(r),
        common::lane(r),
    )] == m.cells[slot(space, r)] by {
        if r < 32 {
            assert(m3.lanes[(common::vector(r), common::lane(r))] == m.cells[slot(space, r)]);
        }
    }
    assert forall|r: u8| r < HOSTED_REGISTERS implies #[trigger] n.guest(r) == m.cells[slot(
        space,
        r,
    )] by {
        assert(m6.lanes[(common::vector(r), common::lane(r))] == m.cells[slot(space, r)]);
    }
    assert forall|gpr: Gpr|
        !(gpr is Rdi || laws::holds_a_guest(gpr)) implies #[trigger] n.gprs[gpr]
        == m.gprs[gpr] by {
        assert(m6.gprs[gpr] == m3.gprs[gpr] || gpr is R14);
    }
}

/// The lines that save the high halves of the first vector registers.
spec fn space_pushes(n: int) -> Seq<Line>
    decreases n,
{
    if n <= 0 {
        Seq::empty()
    } else {
        space_pushes(n - 1).push(
            Line::Op3(
                3,
                Op::Pextrq,
                Operand::R(Reg::Rdi),
                Operand::X((n - 1) as u8),
                Operand::I(1),
            ),
        ).push(Line::Op1(3, Op::Push, Operand::R(Reg::Rdi)))
    }
}

/// The lines that restore the high halves of the first vector registers, the last one first.
spec fn space_pops(n: int) -> Seq<Line>
    decreases n,
{
    if n <= 0 {
        Seq::empty()
    } else {
        Seq::<Line>::empty().push(Line::Op1(3, Op::Pop, Operand::R(Reg::Rdi))).push(
            Line::Op3(
                3,
                Op::Pinsrq,
                Operand::X((n - 1) as u8),
                Operand::R(Reg::Rdi),
                Operand::I(1),
            ),
        ) + space_pops(n - 1)
    }
}

/// The high halves of the first vector registers.
pub open spec fn tops(m: Host, n: nat) -> Seq<u64> {
    Seq::new(n, |k: int| m.top(k as u8))
}

proof fn lemma_space_pushes(m: Host, n: int)
    requires
        0 <= n <= 6,
    ensures
        ({
            let x = m.run(space_pushes(n));
            &&& x == Host { gprs: x.gprs, stack: m.stack + tops(m, n as nat), ..m }
            &&& forall|gpr: Gpr| !(gpr is Rdi) ==> #[trigger] x.gprs[gpr] == m.gprs[gpr]
        }),
    decreases n,
{
    if n > 0 {
        lemma_space_pushes(m, n - 1);
        let w = m.run(space_pushes(n - 1));
        let v = (n - 1) as u8;
        let take = Line::Op3(3, Op::Pextrq, Operand::R(Reg::Rdi), Operand::X(v), Operand::I(1));
        let save = Line::Op1(3, Op::Push, Operand::R(Reg::Rdi));
        laws::lemma_run_push(m, space_pushes(n - 1), take);
        laws::lemma_run_push(m, space_pushes(n - 1).push(take), save);
        let x = m.run(space_pushes(n));
        assert(x == Host {
            gprs: w.gprs.insert(Gpr::Rdi, m.top(v)),
            stack: w.stack.push(m.top(v)),
            ..w
        }) by {
            reveal(Host::after);
        }
        assert(x.stack =~= m.stack + tops(m, n as nat));
    } else {
        assert(m.stack + tops(m, 0) =~= m.stack);
    }
}

proof fn lemma_space_pops(m: Host, n: int, base: Seq<u64>, values: Seq<u64>)
    requires
        0 <= n <= 6,
        values.len() == n,
        m.stack == base + values,
    ensures
        ({
            let x = m.run(space_pops(n));
            &&& x == Host { gprs: x.gprs, lanes: x.lanes, stack: base, ..m }
            &&& forall|gpr: Gpr| !(gpr is Rdi) ==> #[trigger] x.gprs[gpr] == m.gprs[gpr]
            &&& forall|v: u8| v < n ==> #[trigger] x.top(v) == values[v as int]
            &&& forall|v: u8, l: u8|
                l < 2 || v >= n ==> #[trigger] x.lanes[(v, l)] == m.lanes[(v, l)]
        }),
    decreases n,
{
    if n > 0 {
        let v = (n - 1) as u8;
        let take = Line::Op1(3, Op::Pop, Operand::R(Reg::Rdi));
        let place = Line::Op3(3, Op::Pinsrq, Operand::X(v), Operand::R(Reg::Rdi), Operand::I(1));
        let none = Seq::<Line>::empty();
        let two = none.push(take).push(place);
        laws::lemma_run_empty(m);
        laws::lemma_run_push(m, none, take);
        laws::lemma_run_push(m, none.push(take), place);
        laws::runs_compose(m, two, space_pops(n - 1));
        let w = m.run(two);
        let value = values.last();
        let fewer = values.drop_last();
        assert(m.stack.last() == value);
        assert(m.stack.drop_last() =~= base + fewer);
        let low = vm::word(value as int);
        let high = vm::high_word(value as int);
        assert(w == Host {
            gprs: m.gprs.insert(Gpr::Rdi, value),
            lanes: m.lanes.insert((v, 2), low).insert((v, 3), high),
            stack: base + fewer,
            ..m
        }) by {
            reveal(Host::after);
        }
        assert(low + high * 0x1_0000_0000 == value);
        lemma_space_pops(w, n - 1, base, fewer);
        let x = m.run(space_pops(n));
        assert forall|k: u8| k < n implies #[trigger] x.top(k) == values[k as int] by {
            if k == v {
                assert(x.lanes[(v, 2)] == w.lanes[(v, 2)]);
                assert(x.lanes[(v, 3)] == w.lanes[(v, 3)]);
            } else {
                assert(values[k as int] == fewer[k as int]);
            }
        }
    } else {
        assert(base + values =~= base);
        laws::lemma_run_empty(m);
    }
}

/// Pushing registers.
proof fn lemma_pushes(m: Host, registers: Seq<Reg>)
    ensures
        ({
            let code = registers.map_values(|reg: Reg| Line::Op1(4, Op::Push, Operand::R(reg)));
            m.run(code) == Host { stack: m.stack + held(m, registers), ..m }
        }),
    decreases registers.len(),
{
    let push = |reg: Reg| Line::Op1(4, Op::Push, Operand::R(reg));
    if registers.len() == 0 {
        assert(registers.map_values(push) =~= Seq::<Line>::empty());
        assert(m.stack + held(m, registers) =~= m.stack);
        laws::lemma_run_empty(m);
    } else {
        let fewer = registers.drop_last();
        lemma_pushes(m, fewer);
        let last = registers.last();
        assert(registers.map_values(push) =~= fewer.map_values(push).push(push(last)));
        laws::lemma_run_push(m, fewer.map_values(push), push(last));
        reveal(Host::after);
        assert(m.stack + held(m, registers) =~= (m.stack + held(m, fewer)).push(
            m.gprs[last.gpr()],
        ));
    }
}

/// What registers hold.
pub open spec fn held(m: Host, registers: Seq<Reg>) -> Seq<u64> {
    registers.map_values(|reg: Reg| m.gprs[reg.gpr()])
}

/// No two of the names are parts of one register.
pub open spec fn apart(registers: Seq<Reg>) -> bool {
    forall|a: int, b: int|
        0 <= a < b < registers.len() ==> (#[trigger] registers[a]).gpr() != (
        #[trigger] registers[b]).gpr()
}

/// Popping registers in the opposite order.
proof fn lemma_pops(m: Host, registers: Seq<Reg>, base: Seq<u64>, values: Seq<u64>)
    requires
        values.len() == registers.len(),
        m.stack == base + values,
        apart(registers),
    ensures
        ({
            let code = registers.reverse().map_values(
                |reg: Reg| Line::Op1(4, Op::Pop, Operand::R(reg)),
            );
            let x = m.run(code);
            &&& x == Host { gprs: x.gprs, stack: base, ..m }
            &&& forall|k: int|
                0 <= k < registers.len() ==> x.gprs[(#[trigger] registers[k]).gpr()] == values[k]
            &&& forall|gpr: Gpr|
                (forall|k: int| 0 <= k < registers.len() ==> (#[trigger] registers[k]).gpr() != gpr)
                    ==> #[trigger] x.gprs[gpr] == m.gprs[gpr]
        }),
    decreases registers.len(),
{
    let pop = |reg: Reg| Line::Op1(4, Op::Pop, Operand::R(reg));
    let code = registers.reverse().map_values(pop);
    let none = Seq::<Line>::empty();
    laws::lemma_run_empty(m);
    if registers.len() == 0 {
        assert(code =~= none);
        assert(base + values =~= base);
    } else {
        let fewer = registers.drop_last();
        let last = registers.last();
        let value = values.last();
        let first = none.push(pop(last));
        assert(code =~= first + fewer.reverse().map_values(pop));
        laws::lemma_run_push(m, none, pop(last));
        laws::runs_compose(m, first, fewer.reverse().map_values(pop));
        let w = m.run(first);
        assert(m.stack.last() == value);
        assert(m.stack.drop_last() =~= base + values.drop_last());
        assert(w == Host {
            gprs: m.gprs.insert(last.gpr(), value),
            stack: base + values.drop_last(),
            ..m
        }) by {
            reveal(Host::after);
        }
        assert forall|a: int, b: int| 0 <= a < b < fewer.len() implies (
        #[trigger] fewer[a]).gpr() != (#[trigger] fewer[b]).gpr() by {
            assert(registers[a].gpr() != registers[b].gpr());
        }
        lemma_pops(w, fewer, base, values.drop_last());
        let x = m.run(code);
        let end = registers.len() - 1;
        assert(x.gprs[last.gpr()] == w.gprs[last.gpr()]) by {
            assert forall|k: int| 0 <= k < fewer.len() implies (#[trigger] fewer[k]).gpr()
                != last.gpr() by {
                assert(registers[k].gpr() != registers[end].gpr());
            }
        }
        assert forall|k: int| 0 <= k < registers.len() implies x.gprs[(
        #[trigger] registers[k]).gpr()] == values[k] by {
            if k < end {
                assert(fewer[k] == registers[k]);
            }
        }
        assert forall|gpr: Gpr|
            (forall|k: int|
                0 <= k < registers.len() ==> (#[trigger] registers[k]).gpr() != gpr) implies
            #[trigger] x.gprs[gpr] == m.gprs[gpr] by {
            assert(registers[end].gpr() != gpr);
            assert forall|k: int| 0 <= k < fewer.len() implies (#[trigger] fewer[k]).gpr()
                != gpr by {
                assert(registers[k].gpr() != gpr);
            }
        }
    }
}

/// What is on the stack during a call: where the tables are, and the registers that a call may
/// change. The one that the tables were found in holds the last of them.
pub open spec fn saved(m: Host) -> Seq<u64> {
    tops(m, 6) + held(m.fill(Reg::Rdi, m.top(5)), laws::internal_registers())
}

/// What goes before a call hands every guest register over to the executor, leaves the rest of its
/// memory alone, and saves what the call may change.
pub proof fn calls_hand_over_the_guest_registers(m: Host)
    ensures
        ({
            let n = m.run(AotCompiler::before_call_listing());
            let space = m.top(REG_ADDR_SPACE);
            &&& forall|r: u8|
                r < HOSTED_REGISTERS ==> #[trigger] n.cells[slot(space, r)] == m.guest(r)
            &&& forall|at: u64|
                at.wrapping_sub(space) >= 4 * HOSTED_REGISTERS ==> #[trigger] n.cells[at]
                    == m.cells[at]
            &&& n.words == m.words
            &&& n.stack == m.stack + saved(m)
            &&& forall|gpr: Gpr| !(gpr is Rdi) ==> #[trigger] n.gprs[gpr] == m.gprs[gpr]
        }),
{
    let none = Seq::<Line>::empty();
    let save = AotCompiler::save_xmm_regs_listing();
    let spaces = AotCompiler::push_address_space_start_listing();
    let internal = laws::internal_registers();
    let pushes = AotCompiler::push_internal_registers_listing();
    let c1 = none + save;
    assert(c1 =~= save);
    laws::runs_compose(m, c1, spaces);
    laws::runs_compose(m, c1 + spaces, pushes);
    lemma_save(m);
    let x = m.run(save);
    reveal_with_fuel(space_pushes, 7);
    assert(spaces =~= space_pushes(6));
    lemma_space_pushes(x, 6);
    assert(tops(x, 6) =~= tops(m, 6)) by {
        assert forall|k: int| 0 <= k < 6 implies #[trigger] x.top(k as u8) == m.top(k as u8) by {
            assert(x.lanes[(k as u8, 2)] == m.lanes[(k as u8, 2)]);
            assert(x.lanes[(k as u8, 3)] == m.lanes[(k as u8, 3)]);
        }
    }
    let y = x.run(spaces);
    laws::saved_registers_are_restored(Gpr::Rax);
    lemma_pushes(y, internal);
    lemma_last_space(x);
    let n = m.run(AotCompiler::before_call_listing());
    assert(x.top(5) == m.top(5)) by {
        assert(tops(x, 6)[5] == tops(m, 6)[5]);
    }
    assert(held(y, internal) =~= held(m.fill(Reg::Rdi, m.top(5)), internal)) by {
        assert forall|k: int| 0 <= k < internal.len() implies y.gprs[(#[trigger] internal[k]).gpr()]
            == m.fill(Reg::Rdi, m.top(5)).gprs[internal[k].gpr()] by {
            assert(x.gprs[internal[k].gpr()] == m.gprs[internal[k].gpr()]);
        }
    }
    assert(n.stack =~= m.stack + saved(m));
    assert forall|gpr: Gpr| !(gpr is Rdi) implies #[trigger] n.gprs[gpr] == m.gprs[gpr] by {
        assert(y.gprs[gpr] == x.gprs[gpr]);
        assert(x.gprs[gpr] == m.gprs[gpr]);
    }
}

/// The register that the tables were found in holds the last of them.
proof fn lemma_last_space(m: Host)
    ensures
        m.run(AotCompiler::push_address_space_start_listing()).gprs[Gpr::Rdi] == m.top(5),
{
    reveal_with_fuel(space_pushes, 7);
    let code = space_pushes(5);
    let take = Line::Op3(3, Op::Pextrq, Operand::R(Reg::Rdi), Operand::X(5), Operand::I(1));
    let save = Line::Op1(3, Op::Push, Operand::R(Reg::Rdi));
    assert(AotCompiler::push_address_space_start_listing() =~= code.push(take).push(save));
    lemma_space_pushes(m, 5);
    laws::lemma_run_push(m, code, take);
    laws::lemma_run_push(m, code.push(take), save);
    reveal(Host::after);
}

/// What goes after a call takes every guest register back from the executor, as the call left it,
/// and restores what was saved; the registers that a call keeps stay.
pub proof fn calls_take_the_guest_registers_back(m: Host, y: Host)
    requires
        y.stack == m.stack + saved(m),
    ensures
        ({
            let n = y.run(AotCompiler::after_call_listing());
            &&& forall|r: u8|
                r < HOSTED_REGISTERS ==> #[trigger] n.guest(r) == y.cells[slot(
                    m.top(REG_ADDR_SPACE),
                    r,
                )]
            &&& forall|v: u8| v < 6 ==> #[trigger] n.top(v) == m.top(v)
            &&& n.cells == y.cells && n.words == y.words && n.stack == m.stack
            &&& n.gprs[Gpr::Rax] == m.gprs[Gpr::Rax] && n.gprs[Gpr::Rcx] == m.gprs[Gpr::Rcx]
            &&& n.gprs[Gpr::Rdx] == m.gprs[Gpr::Rdx] && n.gprs[Gpr::Rsi] == m.gprs[Gpr::Rsi]
            &&& n.gprs[Gpr::Rbx] == y.gprs[Gpr::Rbx] && n.gprs[Gpr::R12] == y.gprs[Gpr::R12]
            &&& n.gprs[Gpr::R14] == y.gprs[Gpr::R14] && n.gprs[Gpr::R15] == y.gprs[Gpr::R15]
        }),
{
    let none = Seq::<Line>::empty();
    let internal = laws::internal_registers();
    let pops = AotCompiler::pop_internal_registers_listing();
    let spaces = AotCompiler::pop_address_space_start_listing();
    let load = AotCompiler::load_xmm_regs_listing();
    let values = held(m.fill(Reg::Rdi, m.top(5)), internal);
    let base = m.stack + tops(m, 6);
    let c1 = none + pops;
    assert(c1 =~= pops);
    laws::runs_compose(y, c1, spaces);
    laws::runs_compose(y, c1 + spaces, load);
    laws::saved_registers_are_restored(Gpr::Rax);
    assert(y.stack =~= base + values);
    lemma_internal_apart();
    lemma_pops(y, internal, base, values);
    let w = y.run(pops);
    reveal_with_fuel(space_pops, 7);
    assert(spaces =~= space_pops(6));
    lemma_space_pops(w, 6, m.stack, tops(m, 6));
    let x = w.run(spaces);
    assert(x.top(REG_ADDR_SPACE) == m.top(REG_ADDR_SPACE));
    lemma_load(x);
    let n = y.run(AotCompiler::after_call_listing());
    assert forall|v: u8| v < 6 implies #[trigger] n.top(v) == m.top(v) by {
        assert(x.top(v) == tops(m, 6)[v as int]);
        assert(n.lanes[(v, 2)] == x.lanes[(v, 2)]);
        assert(n.lanes[(v, 3)] == x.lanes[(v, 3)]);
    }
    assert(internal[8] is Rax && internal[0] is Rcx && internal[1] is Rdx && internal[2] is Rsi);
    assert(values[8] == m.gprs[Gpr::Rax] && values[0] == m.gprs[Gpr::Rcx] && values[1]
        == m.gprs[Gpr::Rdx] && values[2] == m.gprs[Gpr::Rsi]);
    assert(forall|gpr: Gpr|
        gpr is Rbx || gpr is R12 || gpr is R14 || gpr is R15 ==> #[trigger] w.gprs[gpr]
            == y.gprs[gpr]);
    assert(forall|gpr: Gpr|
        gpr is Rbx || gpr is R12 || gpr is R14 || gpr is R15 ==> #[trigger] x.gprs[gpr]
            == w.gprs[gpr]);
}

proof fn lemma_internal_apart()
    ensures
        apart(laws::internal_registers()),
        forall|k: int|
            0 <= k < 9 ==> !((#[trigger] laws::internal_registers()[k]).gpr() is Rbp) && !(
            laws::internal_registers()[k].gpr() is Rbx) && !(laws::internal_registers()[k].gpr()
                is R12) && !(laws::internal_registers()[k].gpr() is R13) && !(
            laws::internal_registers()[k].gpr() is R14) && !(laws::internal_registers()[k].gpr()
                is R15),
{
    let i = laws::internal_registers();
    assert(i[0] is Rcx && i[1] is Rdx && i[2] is Rsi && i[3] is Rdi && i[4] is R8 && i[5] is R9
        && i[6] is R10 && i[7] is R11 && i[8] is Rax);
}

/// A call that leaves the guest registers of the executor alone leaves the guest registers alone.
pub proof fn calls_keep_the_guest_registers(m: Host, y: Host)
    requires
        y.stack == m.run(AotCompiler::before_call_listing()).stack,
        forall|r: u8|
            r < HOSTED_REGISTERS ==> #[trigger] y.cells[slot(m.top(REG_ADDR_SPACE), r)] == m.run(
                AotCompiler::before_call_listing(),
            ).cells[slot(m.top(REG_ADDR_SPACE), r)],
    ensures
        forall|r: u8|
            r < HOSTED_REGISTERS ==> #[trigger] y.run(AotCompiler::after_call_listing()).guest(r)
                == m.guest(r),
{
    let space = m.top(REG_ADDR_SPACE);
    let x = m.run(AotCompiler::before_call_listing());
    let n = y.run(AotCompiler::after_call_listing());
    calls_hand_over_the_guest_registers(m);
    calls_take_the_guest_registers_back(m, y);
    assert forall|r: u8| r < HOSTED_REGISTERS implies #[trigger] n.guest(r) == m.guest(r) by {
        assert(y.cells[slot(space, r)] == x.cells[slot(space, r)]);
    }
}

/// The caller of the compiled code finds its registers as it left them, whatever the code did, as
/// long as it left the stack as it was.
pub proof fn callers_registers_are_restored(m: Host, y: Host)
    requires
        y.stack == m.run(AotCompiler::push_external_registers_listing()).stack,
    ensures
        ({
            let n = y.run(AotCompiler::pop_external_registers_listing());
            &&& n.stack == m.stack
            &&& forall|k: int|
                0 <= k < 6 ==> n.gprs[(#[trigger] laws::external_registers()[k]).gpr()]
                    == m.gprs[laws::external_registers()[k].gpr()]
        }),
{
    let external = laws::external_registers();
    laws::saved_registers_are_restored(Gpr::Rax);
    lemma_pushes(m, external);
    assert(external[0] is Rbp && external[1] is Rbx && external[2] is R12 && external[3] is R13
        && external[4] is R14 && external[5] is R15);
    lemma_pops(y, external, m.stack, held(m, external));
}

} // verus!
