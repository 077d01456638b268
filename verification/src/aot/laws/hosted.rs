//! The code in front of every instruction, and the code of the instructions that the executor carries
//! out: which function it calls, and with what.
use vstd::prelude::*;

use crate::aot::host::{Gpr, Label, Line, Op, Operand, Reg, Shift, Size};
use crate::aot::laws::Host;
use crate::aot::{AotCompiler, HostLinks};
use crate::events::MemoryAccessPosition;
use crate::instruction::Instruction;
use crate::opcode::{OpClass, Opcode};
use crate::register::Register;
use crate::state::ExecutorMode;

verus! {

/// The function of the executor that an instruction is named after.
pub open spec fn handler_of(host: HostLinks, opcode: Opcode) -> u64 {
    match opcode {
        Opcode::MEQ | Opcode::MNE => host.execute_mov_cond,
        Opcode::WSBH => host.execute_wsbh,
        Opcode::EXT => host.execute_ext,
        Opcode::INS => host.execute_ins,
        Opcode::SEXT => host.execute_sext,
        Opcode::TEQ => host.execute_teq,
        Opcode::MADD => host.execute_madd,
        Opcode::MADDU => host.execute_maddu,
        Opcode::MSUB => host.execute_msub,
        Opcode::MSUBU => host.execute_msubu,
        _ => host.execute_syscall,
    }
}

/// A line that moves an operand to a register.
pub open spec fn moves(line: Line, d: Reg, s: Operand) -> bool {
    line matches Line::Op2(_, Op::Mov, to, from) && to == Operand::R(d) && from == s
}

/// The lines from one on that call a function of the executor with some arguments, behind those that
/// hand the guest registers over.
pub open spec fn calls_from(
    code: Seq<Line>,
    k: int,
    before: Seq<Line>,
    handler: u64,
    args: Seq<(Reg, Operand)>,
) -> bool {
    let n = args.len() as int;
    &&& before.len() <= k && k + n + 2 <= code.len()
    &&& code.subrange(k - before.len(), k) == before
    &&& forall|j: int| 0 <= j < n ==> moves(code[k + j], (#[trigger] args[j]).0, args[j].1)
    &&& moves(code[k + n], Reg::Rax, Operand::H(handler))
    &&& code[k + n + 1] matches Line::Op1(_, Op::Call, called) && called == Operand::R(Reg::Rax)
}

/// The call of a function with two arguments.
proof fn lemma_call(
    front: Seq<Line>,
    before: Seq<Line>,
    after: Seq<Line>,
    handler: u64,
    instruction: u64,
)
    ensures
        ({
            let code = (front + before).push(
                Line::Op2(3, Op::Mov, Operand::R(Reg::Rdi), Operand::R(Reg::Rbx)),
            ).push(Line::Op2(3, Op::Mov, Operand::R(Reg::Rsi), Operand::H(instruction))).push(
                Line::Op2(3, Op::Mov, Operand::R(Reg::Rax), Operand::H(handler)),
            ).push(Line::Op1(3, Op::Call, Operand::R(Reg::Rax))) + after;
            let k = (front.len() + before.len()) as int;
            let args = seq![
                (Reg::Rdi, Operand::R(Reg::Rbx)),
                (Reg::Rsi, Operand::H(instruction)),
            ];
            calls_from(code, k, before, handler, args) && code.skip(k + 4) == after
        }),
{
    let code = (front + before).push(
        Line::Op2(3, Op::Mov, Operand::R(Reg::Rdi), Operand::R(Reg::Rbx)),
    ).push(Line::Op2(3, Op::Mov, Operand::R(Reg::Rsi), Operand::H(instruction))).push(
        Line::Op2(3, Op::Mov, Operand::R(Reg::Rax), Operand::H(handler)),
    ).push(Line::Op1(3, Op::Call, Operand::R(Reg::Rax))) + after;
    let k = (front.len() + before.len()) as int;
    assert(code.skip(k + 4) =~= after);
    assert(code.subrange(k - before.len(), k) =~= before);
}

/// The call of a function with three arguments, whatever follows.
proof fn lemma_wide_call(
    front: Seq<Line>,
    before: Seq<Line>,
    after: Seq<Line>,
    handler: u64,
    instruction: u64,
    pc: u64,
)
    ensures
        ({
            let code = called(front, before, handler, instruction, pc) + after;
            let k = (front.len() + before.len()) as int;
            let args = seq![
                (Reg::Rdi, Operand::R(Reg::Rbx)),
                (Reg::Rsi, Operand::H(instruction)),
                (Reg::Rdx, Operand::I(pc)),
            ];
            calls_from(code, k, before, handler, args)
        }),
{
    let code = called(front, before, handler, instruction, pc) + after;
    let k = (front.len() + before.len()) as int;
    assert(code.subrange(k - before.len(), k) =~= before);
}

/// A listing that ends in the call of a function with three arguments.
spec fn called(
    front: Seq<Line>,
    before: Seq<Line>,
    handler: u64,
    instruction: u64,
    pc: u64,
) -> Seq<Line> {
    (front + before).push(Line::Op2(3, Op::Mov, Operand::R(Reg::Rdi), Operand::R(Reg::Rbx))).push(
        Line::Op2(3, Op::Mov, Operand::R(Reg::Rsi), Operand::H(instruction)),
    ).push(Line::Op2(3, Op::Mov, Operand::R(Reg::Rdx), Operand::I(pc))).push(
        Line::Op2(3, Op::Mov, Operand::R(Reg::Rax), Operand::H(handler)),
    ).push(Line::Op1(3, Op::Call, Operand::R(Reg::Rax)))
}

/// What goes in front of the call of a conditional move.
spec fn mov_cond_front(c: &AotCompiler, i: Instruction) -> Seq<Line> {
    let code = Seq::<Line>::empty();
    let code = if c.executor_mode == ExecutorMode::Checkpoint {
        let code = code + c.event_count_listing(i.opcode, 1);
        let code = code + c.event_count_listing(Opcode::ADD, 1);
        let code = code + AotCompiler::access_register_meta_addr_listing();
        let code = code + AotCompiler::access_register_meta_listing(i.op_c, MemoryAccessPosition::C);
        let code = code + AotCompiler::access_register_meta_listing(i.op_b, MemoryAccessPosition::B);
        let code = code + AotCompiler::access_register_meta_listing(i.op_a as u32, MemoryAccessPosition::A);
        code
    } else {
        code
    };
    code
}

/// What goes in front of the call of another instruction.
spec fn misc_front(c: &AotCompiler, i: Instruction) -> Seq<Line> {
    let code = Seq::<Line>::empty();
    let code = if c.executor_mode == ExecutorMode::Checkpoint {
        let code = code + c.event_count_listing(i.opcode, 1);
        let code = match i.opcode {
            Opcode::EXT => {
                let code = code + c.event_count_listing(Opcode::SLL, 1);
                let code = code + c.event_count_listing(Opcode::SRL, 1);
                code
            },
            Opcode::MADDU | Opcode::MSUBU => {
                let code = code + c.event_count_listing(Opcode::MULTU, 1);
                code
            },
            Opcode::INS => {
                let code = code + c.event_count_listing(Opcode::ROR, 2);
                let code = code + c.event_count_listing(Opcode::SLL, 1);
                let code = code + c.event_count_listing(Opcode::SRL, 1);
                let code = code + c.event_count_listing(Opcode::ADD, 1);
                code
            },
            _ => {
                code
            },
        };
        let code = code + AotCompiler::access_register_meta_addr_listing();
        let code = match i.opcode {
            Opcode::MADDU | Opcode::MSUBU | Opcode::MADD | Opcode::MSUB => {
                let code = code + AotCompiler::access_register_meta_listing(i.op_c, MemoryAccessPosition::C);
                let code = code + AotCompiler::access_register_meta_listing(i.op_b, MemoryAccessPosition::B);
                let code = code + AotCompiler::access_register_meta_listing(Register::LO.number() as u32, MemoryAccessPosition::A);
                let code = code + AotCompiler::access_register_meta_listing(Register::HI.number() as u32, MemoryAccessPosition::HI);
                code
            },
            _ => {
                let code = code + AotCompiler::access_register_meta_listing(i.op_b, MemoryAccessPosition::B);
                let code = code + AotCompiler::access_register_meta_listing(i.op_a as u32, MemoryAccessPosition::A);
                code
            },
        };
        code
    } else {
        code
    };
    code
}

/// A conditional move, a bit-field instruction, a trap or a multiply-accumulate instruction is
/// carried out by the function of the executor that is named after it, on the executor and on the
/// instruction in question. The guest registers are handed over in front of the call and taken back
/// behind it, and nothing follows.
pub proof fn hosted_instructions_call_their_function(
    c: &AotCompiler,
    i: Instruction,
    pc: u32,
)
    requires
        i.opcode.class() == OpClass::MovCond || i.opcode.class() == OpClass::Misc,
    ensures
        ({
            let code = c.instruction_listing(i, pc);
            let args = seq![
                (Reg::Rdi, Operand::R(Reg::Rbx)),
                (Reg::Rsi, Operand::H(c.instruction_address(pc))),
            ];
            exists|k: int| #[trigger]
                calls_from(
                    code,
                    k,
                    AotCompiler::before_call_listing(),
                    handler_of(c.host, i.opcode),
                    args,
                ) && code.skip(k + 4) == AotCompiler::after_call_listing()
        }),
{
    let before = AotCompiler::before_call_listing();
    let after = AotCompiler::after_call_listing();
    let front = if i.opcode.class() == OpClass::MovCond {
        mov_cond_front(c, i)
    } else {
        misc_front(c, i)
    };
    let handler = handler_of(c.host, i.opcode);
    let address = c.instruction_address(pc);
    lemma_call(front, before, after, handler, address);
    let code = (front + before).push(
        Line::Op2(3, Op::Mov, Operand::R(Reg::Rdi), Operand::R(Reg::Rbx)),
    ).push(Line::Op2(3, Op::Mov, Operand::R(Reg::Rsi), Operand::H(address))).push(
        Line::Op2(3, Op::Mov, Operand::R(Reg::Rax), Operand::H(handler)),
    ).push(Line::Op1(3, Op::Call, Operand::R(Reg::Rax))) + after;
    if i.opcode.class() == OpClass::MovCond {
        assert(code == c.mov_cond_listing(i, pc));
    } else {
        assert(handler == c.misc_handler(i.opcode));
        assert(code == c.misc_listing(i, pc));
    }
    let k = (front.len() + before.len()) as int;
    let args = seq![(Reg::Rdi, Operand::R(Reg::Rbx)), (Reg::Rsi, Operand::H(address))];
    assert(calls_from(c.instruction_listing(i, pc), k, before, handler, args));
    assert(c.instruction_listing(i, pc).skip(k + 4) == after);
}

/// A syscall is carried out by the executor, on the instruction in question and its address. The
/// guest registers are handed over in front of the call.
pub proof fn syscalls_are_handed_over(c: &AotCompiler, i: Instruction, pc: u32)
    requires
        i.opcode.class() == OpClass::Syscall,
    ensures
        ({
            let code = c.instruction_listing(i, pc);
            let args = seq![
                (Reg::Rdi, Operand::R(Reg::Rbx)),
                (Reg::Rsi, Operand::H(c.instruction_address(pc))),
                (Reg::Rdx, Operand::I(pc as u64)),
            ];
            exists|k: int| #[trigger]
                calls_from(
                    code,
                    k,
                    AotCompiler::before_call_listing(),
                    c.host.execute_syscall,
                    args,
                )
        }),
        c.instruction_listing(i, pc).last() == Line::Here(Label::EndSyscall(pc)),
{
    let code = c.instruction_listing(i, pc);
    let before = AotCompiler::before_call_listing();
    let front = Seq::<Line>::empty();
    let front = if c.executor_mode == ExecutorMode::Checkpoint {
        front + AotCompiler::access_register_meta_addr_listing()
            + AotCompiler::access_register_meta_listing(
            Register::A1.number() as u32,
            MemoryAccessPosition::C,
        ) + AotCompiler::access_register_meta_listing(
            Register::A0.number() as u32,
            MemoryAccessPosition::B,
        ) + AotCompiler::access_register_meta_listing(
            Register::V0.number() as u32,
            MemoryAccessPosition::A,
        )
    } else {
        front
    };
    let front = (front + c.sync_reg_to_clk_listing()).push(Line::Note("syscall"));
    let address = c.instruction_address(pc);
    let head = called(front, before, c.host.execute_syscall, address, pc as u64);
    let tail = code.skip(head.len() as int);
    lemma_wide_call(front, before, tail, c.host.execute_syscall, address, pc as u64);
    assert(code =~= head + tail);
}

/// Where the executor keeps something.
pub open spec fn kept_at(o: Operand, size: Size, offset: u64) -> bool {
    o == Operand::M(size, Reg::Rbx, Shift::Plus(offset))
}

/// A line that leaves the run where the comparison before it found no smaller value.
pub open spec fn leaves_unless_below(line: Line) -> bool {
    line matches Line::Op1(_, Op::Jae, to) && to == Operand::To(Label::RunEnd)
}

/// The code of every instruction is reached by the label of its address and first of all notes the
/// address behind it as the one to go on at; metered code adds the ticks of an instruction to the
/// clock and one to the number of instructions. An instruction that is no delay slot leaves the run
/// before that if the program counter lies behind the program, and metered code also if the longest
/// syscall might exceed the shard.
pub proof fn heads_advance_the_counters(c: &AotCompiler, metered: bool, slot: bool, pc: u32)
    requires
        c.program.wf(),
        c.max_syscall_cycles <= c.shard_size,
    ensures
        ({
            let code = if slot {
                c.slot_head(metered, pc)
            } else {
                c.head(metered, pc)
            };
            let n = if metered {
                code.len() - 2
            } else {
                code.len() as int
            };
            &&& code.len() >= 2 && code[0] == Line::Here(Label::Pc(pc))
            &&& code[n - 1] matches Line::Op2(_, Op::Mov, to, from) && kept_at(
                to,
                Size::Dword,
                c.host.pc_offset,
            ) && from == Operand::I(pc.wrapping_add(4) as u64)
            &&& metered ==> (code[n] matches Line::Op2(_, Op::Add, to, from) && to == Operand::R(
                Reg::R12,
            ) && from == Operand::I(5))
            &&& metered ==> (code[n + 1] matches Line::Op1(_, Op::Inc, to) && kept_at(
                to,
                Size::Qword,
                c.host.global_clk_offset,
            ))
            &&& !slot ==> (code[1] matches Line::Op2(_, Op::Cmp, a, b) && kept_at(
                a,
                Size::Dword,
                c.host.pc_offset,
            ) && b == Operand::I(
                (c.program.pc_base + 4 * c.program.instructions@.len()) as u64,
            ))
            &&& !slot ==> leaves_unless_below(code[2])
            &&& !slot && metered ==> (code[3] matches Line::Op2(_, Op::Cmp, a, b) && a
                == Operand::R(Reg::R12) && b == Operand::I(
                (c.shard_size - c.max_syscall_cycles) as u64,
            ))
            &&& !slot && metered ==> leaves_unless_below(code[4])
        }),
{
}

/// The executor gets the clock as it is, and the clock is taken back as the executor leaves it.
pub proof fn the_clock_is_handed_over_and_back(c: &AotCompiler, m: Host, y: Host)
    requires
        y.gprs[Gpr::Rbx] == m.gprs[Gpr::Rbx],
    ensures
        ({
            let at = m.gprs[Gpr::Rbx].wrapping_add(c.host.clk_offset);
            &&& m.run(c.sync_reg_to_clk_listing()).cells[at] == m.low(Gpr::R12)
            &&& y.run(c.sync_clk_to_reg_listing()).low(Gpr::R12) == y.cells[at]
        }),
{
    reveal(Host::after);
    reveal_with_fuel(Host::run, 3);
    let x = c.sync_reg_to_clk_listing();
    let z = c.sync_clk_to_reg_listing();
    assert(x.drop_last() =~= Seq::empty());
    assert(z.drop_last() =~= Seq::empty());
}

} // verus!
