//! Following the lines of a listing, jumps within it included.
use vstd::prelude::*;

use crate::aot::host::{Line, Operand};
use crate::aot::laws::Host;

verus! {

/// Whether the line at one point of a listing leads to another point. The labels in the code of
/// one instruction are distinct, so there is one such point.
pub open spec fn steps(code: Seq<Line>, m: Host, at: int, n: Host, to: int) -> bool {
    &&& 0 <= at < code.len()
    &&& match code[at] {
        Line::Op1(_, op, Operand::To(label)) => {
            &&& n == m
            &&& if op is Jmp || m.jumps(op) {
                0 <= to < code.len() && code[to] == Line::Here(label)
            } else {
                to == at + 1
            }
        },
        line => n == m.after(line) && to == at + 1,
    }
}

/// Whether so many steps lead from one point of a listing to another.
pub open spec fn leads(code: Seq<Line>, m: Host, at: int, n: Host, to: int, k: nat) -> bool
    decreases k,
{
    if k == 0 {
        m == n && at == to
    } else {
        exists|x: Host, p: int| #[trigger]
            steps(code, m, at, x, p) && leads(code, x, p, n, to, (k - 1) as nat)
    }
}

/// Whether a listing, run from its start to its end, leads from one state to another.
pub open spec fn executes(code: Seq<Line>, m: Host, n: Host) -> bool {
    exists|k: nat| #[trigger] leads(code, m, 0, n, code.len() as int, k)
}

/// Lines that lead to the next one.
pub open spec fn plain(line: Line) -> bool {
    !(line matches Line::Op1(_, _, Operand::To(_)))
}

/// Lines that lead to the next one.
pub open spec fn all_plain(lines: Seq<Line>) -> bool {
    forall|i: int| 0 <= i < lines.len() ==> plain(#[trigger] lines[i])
}

/// One step in front.
pub(crate) proof fn lemma_step(code: Seq<Line>, m: Host, at: int, x: Host, p: int, n: Host, to: int, k: nat)
    requires
        steps(code, m, at, x, p),
        leads(code, x, p, n, to, k),
    ensures
        leads(code, m, at, n, to, k + 1),
{
    assert(leads(code, x, p, n, to, ((k + 1) - 1) as nat));
}

/// Plain lines in front.
pub(crate) proof fn lemma_straight(
    code: Seq<Line>,
    m: Host,
    at: int,
    lines: Seq<Line>,
    n: Host,
    to: int,
    k: nat,
)
    requires
        0 <= at,
        at + lines.len() <= code.len(),
        code.subrange(at, at + lines.len()) == lines,
        all_plain(lines),
        leads(code, m.run(lines), at + lines.len(), n, to, k),
    ensures
        leads(code, m, at, n, to, k + lines.len()),
    decreases lines.len(),
{
    if lines.len() > 0 {
        let head = lines.drop_last();
        let x = m.run(head);
        let last = at + lines.len() - 1;
        assert(code.subrange(at, at + lines.len())[lines.len() - 1] == code[last]);
        assert(code[last] == lines.last());
        assert(plain(lines[lines.len() - 1]));
        lemma_step(code, x, last, m.run(lines), at + lines.len(), n, to, k);
        assert(code.subrange(at, at + head.len()) =~= head) by {
            assert forall|j: int| 0 <= j < head.len() implies code.subrange(at, at + head.len())[j]
                == head[j] by {
                assert(code.subrange(at, at + lines.len())[j] == lines[j]);
            }
        }
        assert forall|i: int| 0 <= i < head.len() implies plain(#[trigger] head[i]) by {
            assert(head[i] == lines[i]);
        }
        lemma_straight(code, m, at, head, n, to, k + 1);
    }
}

/// A listing of plain lines.
pub(crate) proof fn lemma_plain_listing(code: Seq<Line>, m: Host)
    requires
        all_plain(code),
    ensures
        executes(code, m, m.run(code)),
{
    assert(code.subrange(0, code.len() as int) =~= code);
    assert(leads(code, m.run(code), code.len() as int, m.run(code), code.len() as int, 0));
    lemma_straight(code, m, 0, code, m.run(code), code.len() as int, 0);
}

/// A block in the middle of a listing.
pub(crate) proof fn lemma_embedded(
    front: Seq<Line>,
    block: Seq<Line>,
    back: Seq<Line>,
    m: Host,
    at: int,
    n: Host,
    k: nat,
    end: Host,
    j: nat,
)
    requires
        0 <= at,
        leads(block, m, at, n, block.len() as int, k),
        ({
            let code = front + block + back;
            leads(code, n, (front.len() + block.len()) as int, end, code.len() as int, j)
        }),
    ensures
        ({
            let code = front + block + back;
            leads(code, m, front.len() + at, end, code.len() as int, k + j)
        }),
    decreases k,
{
    let code = front + block + back;
    let shift = front.len() as int;
    if k > 0 {
        let (x, p) = choose|x: Host, p: int| #[trigger]
            steps(block, m, at, x, p) && leads(block, x, p, n, block.len() as int, (k - 1) as nat);
        assert(steps(block, m, at, x, p));
        assert(leads(block, x, p, n, block.len() as int, (k - 1) as nat));
        assert(code[shift + at] == block[at]);
        if 0 <= p < block.len() {
            assert(code[shift + p] == block[p]);
        }
        assert(steps(code, m, shift + at, x, shift + p));
        lemma_embedded(front, block, back, x, p, n, (k - 1) as nat, end, j);
        lemma_step(
            code,
            m,
            shift + at,
            x,
            shift + p,
            end,
            code.len() as int,
            ((k - 1) as nat) + j,
        );
    }
}

/// A block between plain lines.
pub(crate) proof fn lemma_around(front: Seq<Line>, block: Seq<Line>, back: Seq<Line>, m: Host, n: Host)
    requires
        all_plain(front),
        all_plain(back),
        executes(block, m.run(front), n),
    ensures
        executes(front + block + back, m, n.run(back)),
{
    let code = front + block + back;
    let end = n.run(back);
    let len = code.len() as int;
    let joint = (front.len() + block.len()) as int;
    let k = choose|k: nat| #[trigger] leads(block, m.run(front), 0, n, block.len() as int, k);
    assert(code.subrange(joint, joint + back.len()) =~= back);
    assert(leads(code, end, len, end, len, 0));
    lemma_straight(code, n, joint, back, end, len, 0);
    lemma_embedded(front, block, back, m.run(front), 0, n, k, end, back.len());
    assert(code.subrange(0, front.len() as int) =~= front);
    lemma_straight(code, m, 0, front, end, len, k + back.len());
}

pub(crate) proof fn lemma_plain_sum(a: Seq<Line>, b: Seq<Line>)
    requires
        all_plain(a),
        all_plain(b),
    ensures
        all_plain(a + b),
{
}

pub(crate) proof fn lemma_plain_push(a: Seq<Line>, line: Line)
    requires
        all_plain(a),
        plain(line),
    ensures
        all_plain(a.push(line)),
{
}

/// Two listings, one behind the other.
pub(crate) proof fn lemma_joined(a: Seq<Line>, b: Seq<Line>, m: Host, x: Host, n: Host)
    requires
        executes(a, m, x),
        executes(b, x, n),
    ensures
        executes(a + b, m, n),
{
    let none = Seq::<Line>::empty();
    let code = a + b;
    let len = code.len() as int;
    let j = choose|j: nat| #[trigger] leads(b, x, 0, n, b.len() as int, j);
    let k = choose|k: nat| #[trigger] leads(a, m, 0, x, a.len() as int, k);
    assert(a + b + none =~= code);
    assert(none + a + b =~= code);
    assert(leads(code, n, len, n, len, 0));
    lemma_embedded(a, b, none, x, 0, n, j, n, 0);
    lemma_embedded(none, a, b, m, 0, x, k, n, j);
}

} // verus!
