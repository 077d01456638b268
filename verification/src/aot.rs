//! Ahead-of-time compilation: guest programs become x86-64 assembly.
//!
//! The code of a program keeps the guest registers in host registers (see [`common`]) and calls
//! back into the executor for what it does not do itself. The addresses it needs are given in
//! [`HostLinks`].
use std::sync::Arc;

use vstd::prelude::*;

pub mod checkpoint;
pub mod common;
pub mod emit;
pub mod error;
pub mod handlers;
pub mod host;
pub mod laws;
pub mod pure;

use crate::aot::common::{
    holders_to_lanes_code, lanes_to_holders_code, HOSTED_REGISTERS, REG_ADDR_SPACE,
};
use crate::aot::host::{join, render, Line, Op, Operand, Reg, Shift, Size};
use crate::program::Program;
use crate::state::ExecutorMode;

verus! {

/// What compiled code knows of the process that it runs in: the addresses of the functions that
/// it calls, where the instructions of the program lie, and where the executor keeps its counters.
#[derive(Debug, Clone, Copy)]
pub struct HostLinks {
    /// Gives the start of an address space.
    pub get_address_space: u64,
    /// Gives the shards of the last accesses in an address space.
    pub get_access_shard_space: u64,
    /// Gives the clocks of the last accesses in an address space.
    pub get_access_clk_space: u64,
    /// Gives the program counter.
    pub get_pc: u64,
    /// Sets the program counter.
    pub set_pc: u64,
    /// Ends the shard if it has to end.
    pub inc_shard_if_need: u64,
    /// Executes a syscall.
    pub execute_syscall: u64,
    /// Executes a conditional move.
    pub execute_mov_cond: u64,
    pub execute_maddu: u64,
    pub execute_msubu: u64,
    pub execute_madd: u64,
    pub execute_msub: u64,
    pub execute_wsbh: u64,
    pub execute_ext: u64,
    pub execute_sext: u64,
    pub execute_ins: u64,
    pub execute_teq: u64,
    /// The address of the first instruction of the program.
    pub instructions: u64,
    /// The distance of two instructions.
    pub instruction_size: u64,
    /// Where the executor keeps the program counter.
    pub pc_offset: u64,
    /// Where the executor keeps the clock.
    pub clk_offset: u64,
    /// Where the executor keeps the global clock.
    pub global_clk_offset: u64,
    /// Where the executor keeps the number of the shard.
    pub shard_offset: u64,
    /// Where the executor keeps the address of the counters of the opcodes.
    pub event_counts_offset: u64,
    /// Where the executor keeps the number of memory words touched in the shard.
    pub local_mem_offset: u64,
}

/// Compiles a program.
pub struct AotCompiler {
    /// The program.
    pub program: Arc<Program>,
    /// The mode the executor is running in.
    pub executor_mode: ExecutorMode,
    /// The maximum size of each shard.
    pub shard_size: u32,
    /// The maximum number of cycles for a syscall.
    pub max_syscall_cycles: u32,
    /// The frequency to check the stopping condition.
    pub shape_check_frequency: u64,
    /// What the code knows of its process.
    pub host: HostLinks,
}

impl AotCompiler {
    /// Create a compiler for the given program.
    pub fn new(
        program: Arc<Program>,
        executor_mode: ExecutorMode,
        shard_size: u32,
        max_syscall_cycles: u32,
        shape_check_frequency: u64,
        host: HostLinks,
    ) -> (r: Self)
        ensures
            r.program == program,
            r.executor_mode == executor_mode,
            r.shard_size == shard_size,
            r.max_syscall_cycles == max_syscall_cycles,
            r.shape_check_frequency == shape_check_frequency,
            r.host == host,
    {
        AotCompiler {
            program,
            executor_mode,
            shard_size,
            max_syscall_cycles,
            shape_check_frequency,
            host,
        }
    }

    /// Code that saves the registers that belong to the caller. The last one also aligns the stack.
    pub open spec fn push_external_registers_listing() -> Seq<Line> {
        let code = Seq::<Line>::empty();
        let code = code.push(Line::Op1(4, Op::Push, Operand::R(Reg::Rbp)));
        let code = code.push(Line::Op1(4, Op::Push, Operand::R(Reg::Rbx)));
        let code = code.push(Line::Op1(4, Op::Push, Operand::R(Reg::R12)));
        let code = code.push(Line::Op1(4, Op::Push, Operand::R(Reg::R13)));
        let code = code.push(Line::Op1(4, Op::Push, Operand::R(Reg::R14)));
        let code = code.push(Line::Op1(4, Op::Push, Operand::R(Reg::R15)));
        code
    }

    /// Code that saves the registers that belong to the caller. The last one also aligns the stack.
    pub(crate) fn push_external_registers_code() -> (r: Vec<Line>)
        ensures
            r@ == Self::push_external_registers_listing(),
    {
        let mut code: Vec<Line> = Vec::new();
        code.push(Line::Op1(4, Op::Push, Operand::R(Reg::Rbp)));
        code.push(Line::Op1(4, Op::Push, Operand::R(Reg::Rbx)));
        code.push(Line::Op1(4, Op::Push, Operand::R(Reg::R12)));
        code.push(Line::Op1(4, Op::Push, Operand::R(Reg::R13)));
        code.push(Line::Op1(4, Op::Push, Operand::R(Reg::R14)));
        code.push(Line::Op1(4, Op::Push, Operand::R(Reg::R15)));
        code
    }

    /// Code that restores the registers that belong to the caller.
    pub open spec fn pop_external_registers_listing() -> Seq<Line> {
        let code = Seq::<Line>::empty();
        let code = code.push(Line::Op1(4, Op::Pop, Operand::R(Reg::R15)));
        let code = code.push(Line::Op1(4, Op::Pop, Operand::R(Reg::R14)));
        let code = code.push(Line::Op1(4, Op::Pop, Operand::R(Reg::R13)));
        let code = code.push(Line::Op1(4, Op::Pop, Operand::R(Reg::R12)));
        let code = code.push(Line::Op1(4, Op::Pop, Operand::R(Reg::Rbx)));
        let code = code.push(Line::Op1(4, Op::Pop, Operand::R(Reg::Rbp)));
        code
    }

    /// Code that restores the registers that belong to the caller.
    pub(crate) fn pop_external_registers_code() -> (r: Vec<Line>)
        ensures
            r@ == Self::pop_external_registers_listing(),
    {
        let mut code: Vec<Line> = Vec::new();
        code.push(Line::Op1(4, Op::Pop, Operand::R(Reg::R15)));
        code.push(Line::Op1(4, Op::Pop, Operand::R(Reg::R14)));
        code.push(Line::Op1(4, Op::Pop, Operand::R(Reg::R13)));
        code.push(Line::Op1(4, Op::Pop, Operand::R(Reg::R12)));
        code.push(Line::Op1(4, Op::Pop, Operand::R(Reg::Rbx)));
        code.push(Line::Op1(4, Op::Pop, Operand::R(Reg::Rbp)));
        code
    }

    /// Code that saves the registers that a call may change.
    pub open spec fn push_internal_registers_listing() -> Seq<Line> {
        let code = Seq::<Line>::empty();
        let code = code.push(Line::Op1(4, Op::Push, Operand::R(Reg::Rcx)));
        let code = code.push(Line::Op1(4, Op::Push, Operand::R(Reg::Rdx)));
        let code = code.push(Line::Op1(4, Op::Push, Operand::R(Reg::Rsi)));
        let code = code.push(Line::Op1(4, Op::Push, Operand::R(Reg::Rdi)));
        let code = code.push(Line::Op1(4, Op::Push, Operand::R(Reg::R8)));
        let code = code.push(Line::Op1(4, Op::Push, Operand::R(Reg::R9)));
        let code = code.push(Line::Op1(4, Op::Push, Operand::R(Reg::R10)));
        let code = code.push(Line::Op1(4, Op::Push, Operand::R(Reg::R11)));
        let code = code.push(Line::Op1(4, Op::Push, Operand::R(Reg::Rax)));
        code
    }

    /// Code that saves the registers that a call may change.
    pub(crate) fn push_internal_registers_code() -> (r: Vec<Line>)
        ensures
            r@ == Self::push_internal_registers_listing(),
    {
        let mut code: Vec<Line> = Vec::new();
        code.push(Line::Op1(4, Op::Push, Operand::R(Reg::Rcx)));
        code.push(Line::Op1(4, Op::Push, Operand::R(Reg::Rdx)));
        code.push(Line::Op1(4, Op::Push, Operand::R(Reg::Rsi)));
        code.push(Line::Op1(4, Op::Push, Operand::R(Reg::Rdi)));
        code.push(Line::Op1(4, Op::Push, Operand::R(Reg::R8)));
        code.push(Line::Op1(4, Op::Push, Operand::R(Reg::R9)));
        code.push(Line::Op1(4, Op::Push, Operand::R(Reg::R10)));
        code.push(Line::Op1(4, Op::Push, Operand::R(Reg::R11)));
        code.push(Line::Op1(4, Op::Push, Operand::R(Reg::Rax)));
        code
    }

    /// Code that restores the registers that a call may change.
    pub open spec fn pop_internal_registers_listing() -> Seq<Line> {
        let code = Seq::<Line>::empty();
        let code = code.push(Line::Op1(4, Op::Pop, Operand::R(Reg::Rax)));
        let code = code.push(Line::Op1(4, Op::Pop, Operand::R(Reg::R11)));
        let code = code.push(Line::Op1(4, Op::Pop, Operand::R(Reg::R10)));
        let code = code.push(Line::Op1(4, Op::Pop, Operand::R(Reg::R9)));
        let code = code.push(Line::Op1(4, Op::Pop, Operand::R(Reg::R8)));
        let code = code.push(Line::Op1(4, Op::Pop, Operand::R(Reg::Rdi)));
        let code = code.push(Line::Op1(4, Op::Pop, Operand::R(Reg::Rsi)));
        let code = code.push(Line::Op1(4, Op::Pop, Operand::R(Reg::Rdx)));
        let code = code.push(Line::Op1(4, Op::Pop, Operand::R(Reg::Rcx)));
        code
    }

    /// Code that restores the registers that a call may change.
    pub(crate) fn pop_internal_registers_code() -> (r: Vec<Line>)
        ensures
            r@ == Self::pop_internal_registers_listing(),
    {
        let mut code: Vec<Line> = Vec::new();
        code.push(Line::Op1(4, Op::Pop, Operand::R(Reg::Rax)));
        code.push(Line::Op1(4, Op::Pop, Operand::R(Reg::R11)));
        code.push(Line::Op1(4, Op::Pop, Operand::R(Reg::R10)));
        code.push(Line::Op1(4, Op::Pop, Operand::R(Reg::R9)));
        code.push(Line::Op1(4, Op::Pop, Operand::R(Reg::R8)));
        code.push(Line::Op1(4, Op::Pop, Operand::R(Reg::Rdi)));
        code.push(Line::Op1(4, Op::Pop, Operand::R(Reg::Rsi)));
        code.push(Line::Op1(4, Op::Pop, Operand::R(Reg::Rdx)));
        code.push(Line::Op1(4, Op::Pop, Operand::R(Reg::Rcx)));
        code
    }

    /// Code that saves the high halves of the vector registers that hold addresses.
    pub open spec fn push_address_space_start_listing() -> Seq<Line> {
        let code = Seq::<Line>::empty();
        let code = code.push(Line::Op3(3, Op::Pextrq, Operand::R(Reg::Rdi), Operand::X(0), Operand::I(1)));
        let code = code.push(Line::Op1(3, Op::Push, Operand::R(Reg::Rdi)));
        let code = code.push(Line::Op3(3, Op::Pextrq, Operand::R(Reg::Rdi), Operand::X(1), Operand::I(1)));
        let code = code.push(Line::Op1(3, Op::Push, Operand::R(Reg::Rdi)));
        let code = code.push(Line::Op3(3, Op::Pextrq, Operand::R(Reg::Rdi), Operand::X(2), Operand::I(1)));
        let code = code.push(Line::Op1(3, Op::Push, Operand::R(Reg::Rdi)));
        let code = code.push(Line::Op3(3, Op::Pextrq, Operand::R(Reg::Rdi), Operand::X(3), Operand::I(1)));
        let code = code.push(Line::Op1(3, Op::Push, Operand::R(Reg::Rdi)));
        let code = code.push(Line::Op3(3, Op::Pextrq, Operand::R(Reg::Rdi), Operand::X(4), Operand::I(1)));
        let code = code.push(Line::Op1(3, Op::Push, Operand::R(Reg::Rdi)));
        let code = code.push(Line::Op3(3, Op::Pextrq, Operand::R(Reg::Rdi), Operand::X(5), Operand::I(1)));
        let code = code.push(Line::Op1(3, Op::Push, Operand::R(Reg::Rdi)));
        code
    }

    /// Code that saves the high halves of the vector registers that hold addresses.
    pub(crate) fn push_address_space_start_code() -> (r: Vec<Line>)
        ensures
            r@ == Self::push_address_space_start_listing(),
    {
        let mut code: Vec<Line> = Vec::new();
        code.push(Line::Op3(3, Op::Pextrq, Operand::R(Reg::Rdi), Operand::X(0), Operand::I(1)));
        code.push(Line::Op1(3, Op::Push, Operand::R(Reg::Rdi)));
        code.push(Line::Op3(3, Op::Pextrq, Operand::R(Reg::Rdi), Operand::X(1), Operand::I(1)));
        code.push(Line::Op1(3, Op::Push, Operand::R(Reg::Rdi)));
        code.push(Line::Op3(3, Op::Pextrq, Operand::R(Reg::Rdi), Operand::X(2), Operand::I(1)));
        code.push(Line::Op1(3, Op::Push, Operand::R(Reg::Rdi)));
        code.push(Line::Op3(3, Op::Pextrq, Operand::R(Reg::Rdi), Operand::X(3), Operand::I(1)));
        code.push(Line::Op1(3, Op::Push, Operand::R(Reg::Rdi)));
        code.push(Line::Op3(3, Op::Pextrq, Operand::R(Reg::Rdi), Operand::X(4), Operand::I(1)));
        code.push(Line::Op1(3, Op::Push, Operand::R(Reg::Rdi)));
        code.push(Line::Op3(3, Op::Pextrq, Operand::R(Reg::Rdi), Operand::X(5), Operand::I(1)));
        code.push(Line::Op1(3, Op::Push, Operand::R(Reg::Rdi)));
        code
    }

    /// Code that restores the high halves of the vector registers that hold addresses.
    pub open spec fn pop_address_space_start_listing() -> Seq<Line> {
        let code = Seq::<Line>::empty();
        let code = code.push(Line::Op1(3, Op::Pop, Operand::R(Reg::Rdi)));
        let code = code.push(Line::Op3(3, Op::Pinsrq, Operand::X(5), Operand::R(Reg::Rdi), Operand::I(1)));
        let code = code.push(Line::Op1(3, Op::Pop, Operand::R(Reg::Rdi)));
        let code = code.push(Line::Op3(3, Op::Pinsrq, Operand::X(4), Operand::R(Reg::Rdi), Operand::I(1)));
        let code = code.push(Line::Op1(3, Op::Pop, Operand::R(Reg::Rdi)));
        let code = code.push(Line::Op3(3, Op::Pinsrq, Operand::X(3), Operand::R(Reg::Rdi), Operand::I(1)));
        let code = code.push(Line::Op1(3, Op::Pop, Operand::R(Reg::Rdi)));
        let code = code.push(Line::Op3(3, Op::Pinsrq, Operand::X(2), Operand::R(Reg::Rdi), Operand::I(1)));
        let code = code.push(Line::Op1(3, Op::Pop, Operand::R(Reg::Rdi)));
        let code = code.push(Line::Op3(3, Op::Pinsrq, Operand::X(1), Operand::R(Reg::Rdi), Operand::I(1)));
        let code = code.push(Line::Op1(3, Op::Pop, Operand::R(Reg::Rdi)));
        let code = code.push(Line::Op3(3, Op::Pinsrq, Operand::X(0), Operand::R(Reg::Rdi), Operand::I(1)));
        code
    }

    /// Code that restores the high halves of the vector registers that hold addresses.
    pub(crate) fn pop_address_space_start_code() -> (r: Vec<Line>)
        ensures
            r@ == Self::pop_address_space_start_listing(),
    {
        let mut code: Vec<Line> = Vec::new();
        code.push(Line::Op1(3, Op::Pop, Operand::R(Reg::Rdi)));
        code.push(Line::Op3(3, Op::Pinsrq, Operand::X(5), Operand::R(Reg::Rdi), Operand::I(1)));
        code.push(Line::Op1(3, Op::Pop, Operand::R(Reg::Rdi)));
        code.push(Line::Op3(3, Op::Pinsrq, Operand::X(4), Operand::R(Reg::Rdi), Operand::I(1)));
        code.push(Line::Op1(3, Op::Pop, Operand::R(Reg::Rdi)));
        code.push(Line::Op3(3, Op::Pinsrq, Operand::X(3), Operand::R(Reg::Rdi), Operand::I(1)));
        code.push(Line::Op1(3, Op::Pop, Operand::R(Reg::Rdi)));
        code.push(Line::Op3(3, Op::Pinsrq, Operand::X(2), Operand::R(Reg::Rdi), Operand::I(1)));
        code.push(Line::Op1(3, Op::Pop, Operand::R(Reg::Rdi)));
        code.push(Line::Op3(3, Op::Pinsrq, Operand::X(1), Operand::R(Reg::Rdi), Operand::I(1)));
        code.push(Line::Op1(3, Op::Pop, Operand::R(Reg::Rdi)));
        code.push(Line::Op3(3, Op::Pinsrq, Operand::X(0), Operand::R(Reg::Rdi), Operand::I(1)));
        code
    }

    /// Code that loads the first `n` vector registers from the guest registers at `r14`.
    pub open spec fn low_loads(n: int) -> Seq<Line>
        decreases n,
    {
        if n <= 0 {
            Seq::empty()
        } else {
            Self::low_loads(n - 1).push(
                Line::Op2(
                    3,
                    Op::Mov,
                    Operand::R(Reg::Rdi),
                    Operand::M(Size::Implied, Reg::R14, Shift::Eights((n - 1) as u64)),
                ),
            ).push(
                Line::Op3(
                    3,
                    Op::Pinsrq,
                    Operand::X((n - 1) as u8),
                    Operand::R(Reg::Rdi),
                    Operand::I(0),
                ),
            )
        }
    }

    /// Code that stores the first `n` vector registers to the guest registers at `r14`.
    pub open spec fn low_stores(n: int) -> Seq<Line>
        decreases n,
    {
        if n <= 0 {
            Seq::empty()
        } else {
            Self::low_stores(n - 1).push(
                Line::Op2(
                    3,
                    Op::Movq,
                    Operand::M(Size::Implied, Reg::R14, Shift::Eights((n - 1) as u64)),
                    Operand::X((n - 1) as u8),
                ),
            )
        }
    }

    /// Code that loads the vector registers from the guest registers at `r14`.
    fn low_loads_code() -> (r: Vec<Line>)
        ensures
            r@ == Self::low_loads(16),
    {
        let mut code: Vec<Line> = Vec::new();
        let mut i: u8 = 0;
        while i < 16
            invariant
                i <= 16,
                code@ == Self::low_loads(i as int),
            decreases 16 - i,
        {
            code.push(
                Line::Op2(
                    3,
                    Op::Mov,
                    Operand::R(Reg::Rdi),
                    Operand::M(Size::Implied, Reg::R14, Shift::Eights(i as u64)),
                ),
            );
            code.push(
                Line::Op3(3, Op::Pinsrq, Operand::X(i), Operand::R(Reg::Rdi), Operand::I(0)),
            );
            i = i + 1;
        }
        code
    }

    /// Code that stores the vector registers to the guest registers at `r14`.
    fn low_stores_code() -> (r: Vec<Line>)
        ensures
            r@ == Self::low_stores(16),
    {
        let mut code: Vec<Line> = Vec::new();
        let mut i: u8 = 0;
        while i < 16
            invariant
                i <= 16,
                code@ == Self::low_stores(i as int),
            decreases 16 - i,
        {
            code.push(
                Line::Op2(
                    3,
                    Op::Movq,
                    Operand::M(Size::Implied, Reg::R14, Shift::Eights(i as u64)),
                    Operand::X(i),
                ),
            );
            i = i + 1;
        }
        code
    }

    /// Code that loads the guest registers from the executor.
    pub open spec fn load_xmm_regs_listing() -> Seq<Line> {
        let code = Seq::<Line>::empty();
        let code = code.push(Line::Op1(4, Op::Push, Operand::R(Reg::R14)));
        let code = code.push(Line::Op3(4, Op::Pextrq, Operand::R(Reg::R14), Operand::X(REG_ADDR_SPACE), Operand::I(1)));
        let code = code + Self::low_loads(16);
        let code = code.push(Line::Op2(3, Op::Mov, Operand::R(Reg::Rdi), Operand::M(Size::Implied, Reg::R14, Shift::Eights(16))));
        let code = code.push(Line::Op3(3, Op::Pinsrq, Operand::X(13), Operand::R(Reg::Rdi), Operand::I(1)));
        let code = code.push(Line::Op1(4, Op::Pop, Operand::R(Reg::R14)));
        let code = code + common::lanes_to_holders(HOSTED_REGISTERS as int);
        code
    }

    /// Code that loads the guest registers from the executor.
    pub(crate) fn load_xmm_regs_code() -> (r: Vec<Line>)
        ensures
            r@ == Self::load_xmm_regs_listing(),
    {
        let mut code: Vec<Line> = Vec::new();
        code.push(Line::Op1(4, Op::Push, Operand::R(Reg::R14)));
        code.push(Line::Op3(4, Op::Pextrq, Operand::R(Reg::R14), Operand::X(REG_ADDR_SPACE), Operand::I(1)));
        join(&mut code, Self::low_loads_code());
        code.push(Line::Op2(3, Op::Mov, Operand::R(Reg::Rdi), Operand::M(Size::Implied, Reg::R14, Shift::Eights(16))));
        code.push(Line::Op3(3, Op::Pinsrq, Operand::X(13), Operand::R(Reg::Rdi), Operand::I(1)));
        code.push(Line::Op1(4, Op::Pop, Operand::R(Reg::R14)));
        join(&mut code, lanes_to_holders_code());
        code
    }

    /// Code that stores the guest registers to the executor.
    pub open spec fn save_xmm_regs_listing() -> Seq<Line> {
        let code = Seq::<Line>::empty();
        let code = code + common::holders_to_lanes(HOSTED_REGISTERS as int);
        let code = code.push(Line::Op1(4, Op::Push, Operand::R(Reg::R14)));
        let code = code.push(Line::Op3(4, Op::Pextrq, Operand::R(Reg::R14), Operand::X(REG_ADDR_SPACE), Operand::I(1)));
        let code = code + Self::low_stores(16);
        let code = code.push(Line::Op3(3, Op::Pextrq, Operand::M(Size::Implied, Reg::R14, Shift::Eights(16)), Operand::X(13), Operand::I(1)));
        let code = code.push(Line::Op1(4, Op::Pop, Operand::R(Reg::R14)));
        code
    }

    /// Code that stores the guest registers to the executor.
    pub(crate) fn save_xmm_regs_code() -> (r: Vec<Line>)
        ensures
            r@ == Self::save_xmm_regs_listing(),
    {
        let mut code: Vec<Line> = Vec::new();
        join(&mut code, holders_to_lanes_code());
        code.push(Line::Op1(4, Op::Push, Operand::R(Reg::R14)));
        code.push(Line::Op3(4, Op::Pextrq, Operand::R(Reg::R14), Operand::X(REG_ADDR_SPACE), Operand::I(1)));
        join(&mut code, Self::low_stores_code());
        code.push(Line::Op3(3, Op::Pextrq, Operand::M(Size::Implied, Reg::R14, Shift::Eights(16)), Operand::X(13), Operand::I(1)));
        code.push(Line::Op1(4, Op::Pop, Operand::R(Reg::R14)));
        code
    }

    /// Code that stores everything that a call into the executor may look at or change.
    pub open spec fn before_call_listing() -> Seq<Line> {
        let code = Seq::<Line>::empty();
        let code = code + Self::save_xmm_regs_listing();
        let code = code + Self::push_address_space_start_listing();
        let code = code + Self::push_internal_registers_listing();
        code
    }

    /// Code that stores everything that a call into the executor may look at or change.
    pub(crate) fn before_call_code() -> (r: Vec<Line>)
        ensures
            r@ == Self::before_call_listing(),
    {
        let mut code: Vec<Line> = Vec::new();
        join(&mut code, Self::save_xmm_regs_code());
        join(&mut code, Self::push_address_space_start_code());
        join(&mut code, Self::push_internal_registers_code());
        code
    }

    /// Code that takes everything back after a call into the executor.
    pub open spec fn after_call_listing() -> Seq<Line> {
        let code = Seq::<Line>::empty();
        let code = code + Self::pop_internal_registers_listing();
        let code = code + Self::pop_address_space_start_listing();
        let code = code + Self::load_xmm_regs_listing();
        code
    }

    /// Code that takes everything back after a call into the executor.
    pub(crate) fn after_call_code() -> (r: Vec<Line>)
        ensures
            r@ == Self::after_call_listing(),
    {
        let mut code: Vec<Line> = Vec::new();
        join(&mut code, Self::pop_internal_registers_code());
        join(&mut code, Self::pop_address_space_start_code());
        join(&mut code, Self::load_xmm_regs_code());
        code
    }

    /// The assembly that goes before a call into the executor.
    pub fn before_call() -> (r: String)
        ensures
            r@ == host::listing_text(Self::before_call_listing()),
    {
        render(&Self::before_call_code())
    }

    /// The assembly that goes after a call into the executor.
    pub fn after_call() -> (r: String)
        ensures
            r@ == host::listing_text(Self::after_call_listing()),
    {
        render(&Self::after_call_code())
    }

    /// The assembly that saves the registers that belong to the caller.
    pub fn push_external_registers() -> (r: String)
        ensures
            r@ == host::listing_text(Self::push_external_registers_listing()),
    {
        render(&Self::push_external_registers_code())
    }
}

} // verus!
