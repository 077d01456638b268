//! Compiled code, run on a small model of the host.
use std::collections::HashMap;
use std::sync::Arc;

use zkm_core_executor::aot::checkpoint::{inc_shard_if_need, LocalExecutionCounts, ShardLimits};
use zkm_core_executor::aot::common::{gpr_to_xmm, sync_gpr_to_xmm, sync_xmm_to_gpr, xmm_to_gpr};
use zkm_core_executor::aot::emit::is_compilable;
use zkm_core_executor::aot::error::AotError;
use zkm_core_executor::aot::host::{decimal_text, hexadecimal_text, mask_text, Reg, Width};
use zkm_core_executor::aot::{AotCompiler, HostLinks};
use zkm_core_executor::air::MipsAirId;
use zkm_core_executor::cost::{AirCosts, AirCounts};
use zkm_core_executor::errors::ExecutionError;
use zkm_core_executor::events::{MemoryAccessPosition, PrecompileEvents};
use zkm_core_executor::instruction::Instruction;
use zkm_core_executor::opcode::{Opcode, NUM_OPCODES};
use zkm_core_executor::program::Program;
use zkm_core_executor::register::Register;
use zkm_core_executor::state::{ExecutionState, ExecutorMode};
use zkm_core_executor::vm;

const REGISTERS: u64 = 0x1_0000_0000;
const MEMORY: u64 = 0x10_0000_0000;
const SHARDS: [u64; 2] = [0x3_0000_0000, 0x30_0000_0000];
const CLKS: [u64; 2] = [0x4_0000_0000, 0x40_0000_0000];
const EXECUTOR: u64 = 0x2_0000_0000;
const EVENTS: u64 = 0x2_1000_0000;
const INSTRUCTIONS: u64 = 0x2_2000_0000;
const TABLE: u64 = 0x5_0000_0000;
const CODE: u64 = 0x5_0100_0000;
const STACK: u64 = 0x7_0000_0000;

fn links() -> HostLinks {
    HostLinks {
        get_address_space: 0xf001,
        get_access_shard_space: 0xf002,
        get_access_clk_space: 0xf003,
        get_pc: 0xf004,
        set_pc: 0xf005,
        inc_shard_if_need: 0xf006,
        execute_syscall: 0xf007,
        execute_mov_cond: 0xf008,
        execute_maddu: 0xf010,
        execute_msubu: 0xf011,
        execute_madd: 0xf012,
        execute_msub: 0xf013,
        execute_wsbh: 0xf014,
        execute_ext: 0xf015,
        execute_sext: 0xf016,
        execute_ins: 0xf017,
        execute_teq: 0xf018,
        instructions: INSTRUCTIONS,
        instruction_size: 24,
        pc_offset: 0,
        clk_offset: 8,
        global_clk_offset: 16,
        shard_offset: 24,
        event_counts_offset: 32,
        local_mem_offset: 40,
    }
}

#[derive(Default)]
struct Flags {
    zero: bool,
    sign: bool,
    carry: bool,
    less: bool,
}

struct Runtime {
    program: Arc<Program>,
    shard_size: u32,
    frequency: u64,
    lines: Vec<String>,
    labels: HashMap<String, usize>,
    bytes: HashMap<u64, u8>,
    gprs: HashMap<&'static str, u64>,
    xmm: [[u32; 4]; 16],
    flags: Flags,
    ended_shards: Vec<u32>,
    exited: bool,
}

const PARTS: [[&str; 4]; 16] = [
    ["rax", "eax", "ax", "al"],
    ["rbx", "ebx", "bx", "bl"],
    ["rcx", "ecx", "cx", "cl"],
    ["rdx", "edx", "dx", "dl"],
    ["rsi", "esi", "si", "sil"],
    ["rdi", "edi", "di", "dil"],
    ["rbp", "ebp", "bp", "bpl"],
    ["rsp", "esp", "sp", "spl"],
    ["r8", "r8d", "r8w", "r8b"],
    ["r9", "r9d", "r9w", "r9b"],
    ["r10", "r10d", "r10w", "r10b"],
    ["r11", "r11d", "r11w", "r11b"],
    ["r12", "r12d", "r12w", "r12b"],
    ["r13", "r13d", "r13w", "r13b"],
    ["r14", "r14d", "r14w", "r14b"],
    ["r15", "r15d", "r15w", "r15b"],
];

fn part(name: &str) -> Option<(&'static str, u32)> {
    for row in PARTS.iter() {
        for (k, part) in row.iter().enumerate() {
            if *part == name {
                return Some((row[0], [64, 32, 16, 8][k]));
            }
        }
    }
    None
}

fn mask(bits: u32) -> u64 {
    if bits == 64 {
        u64::MAX
    } else {
        (1 << bits) - 1
    }
}

impl Runtime {
    fn new(program: Program) -> Self {
        let program = Arc::new(program);
        let mut runtime = Runtime {
            program,
            shard_size: 1 << 24,
            frequency: 16,
            lines: vec![],
            labels: HashMap::new(),
            bytes: HashMap::new(),
            gprs: PARTS.iter().map(|row| (row[0], 0)).collect(),
            xmm: [[0; 4]; 16],
            flags: Flags::default(),
            ended_shards: vec![],
            exited: false,
        };
        runtime.put(EXECUTOR, runtime.program.pc_start as u64, 4);
        runtime.put(EXECUTOR + 24, 1, 4);
        runtime.put(EXECUTOR + 32, EVENTS, 8);
        runtime
    }

    fn compile(&mut self, mode: ExecutorMode) {
        let compiler = AotCompiler::new(
            self.program.clone(),
            mode,
            self.shard_size,
            100,
            self.frequency,
            links(),
        );
        assert!(compiler.can_compile());
        let text = if mode == ExecutorMode::Checkpoint {
            compiler.create_metered_asm().unwrap()
        } else {
            compiler.create_pure_asm().unwrap()
        };
        self.lines = text.lines().map(|l| l.trim().to_string()).collect();
        for (k, line) in self.lines.iter().enumerate() {
            if let Some(label) = line.strip_suffix(':') {
                let twice = self.labels.insert(label.to_string(), k);
                assert!(twice.is_none(), "label {label} stands twice");
            }
        }
        let mut entry = TABLE;
        for line in self.lines.clone() {
            if let Some(rest) = line.strip_prefix(".long ") {
                let label = rest.split(" - ").next().unwrap();
                let offset = CODE + self.labels[label] as u64 - TABLE;
                self.put(entry, offset, 4);
                entry += 4;
            }
        }
    }

    fn get(&self, addr: u64, size: u64) -> u64 {
        (0..size).rev().fold(0, |v, k| (v << 8) | *self.bytes.get(&(addr + k)).unwrap_or(&0) as u64)
    }

    fn put(&mut self, addr: u64, value: u64, size: u64) {
        for k in 0..size {
            self.bytes.insert(addr + k, (value >> (8 * k)) as u8);
        }
    }

    fn reg(&self, name: &str) -> u64 {
        let (whole, bits) = part(name).unwrap();
        self.gprs[whole] & mask(bits)
    }

    fn set(&mut self, name: &str, value: u64) {
        let (whole, bits) = part(name).unwrap();
        let old = self.gprs[whole];
        let new = match bits {
            64 => value,
            32 => value & mask(32),
            _ => (old & !mask(bits)) | (value & mask(bits)),
        };
        self.gprs.insert(whole, new);
    }

    fn number(text: &str) -> u64 {
        match text.strip_prefix("0x") {
            Some(hex) => u64::from_str_radix(hex, 16).unwrap(),
            None => text.parse().unwrap(),
        }
    }

    /// The address of a memory operand.
    fn address(&self, operand: &str) -> u64 {
        let inside = &operand[operand.find('[').unwrap() + 1..operand.find(']').unwrap()];
        if inside == "rip + map_pc_base" {
            return TABLE;
        }
        let words: Vec<&str> = inside.split(' ').collect();
        let base = self.reg(words[0]);
        if words.len() == 1 {
            return base;
        }
        let shift = if let Some(count) = words[2].strip_prefix("8*") {
            8 * Self::number(count)
        } else if part(words[2]).is_some() {
            self.reg(words[2])
        } else {
            Self::number(words[2])
        };
        if words[1] == "-" {
            base.wrapping_sub(shift)
        } else {
            base.wrapping_add(shift)
        }
    }

    /// The width of an instruction in bits.
    fn width(operands: &[String]) -> u32 {
        for o in operands {
            if let Some((_, bits)) = part(o) {
                return bits;
            }
        }
        for (mark, bits) in [("byte ", 8), ("dword ", 32), ("qword ", 64), ("word ", 16)] {
            if operands[0].starts_with(mark) {
                return bits;
            }
        }
        panic!("no width: {operands:?}");
    }

    fn read(&self, operand: &str, bits: u32) -> u64 {
        if part(operand).is_some() {
            self.reg(operand)
        } else if operand.contains('[') {
            self.get(self.address(operand), bits as u64 / 8)
        } else {
            Self::number(operand) & mask(bits)
        }
    }

    fn write(&mut self, operand: &str, value: u64, bits: u32) {
        if part(operand).is_some() {
            self.set(operand, value);
        } else {
            self.put(self.address(operand), value, bits as u64 / 8);
        }
    }

    fn push(&mut self, value: u64) {
        let sp = self.reg("rsp") - 8;
        self.set("rsp", sp);
        self.put(sp, value, 8);
    }

    fn pop(&mut self) -> u64 {
        let sp = self.reg("rsp");
        self.set("rsp", sp + 8);
        self.get(sp, 8)
    }

    fn register(&self, r: u8) -> u32 {
        self.get(REGISTERS + 4 * r as u64, 4) as u32
    }

    fn set_register(&mut self, r: u8, value: u32) {
        self.put(REGISTERS + 4 * r as u64, value as u64, 4);
    }

    fn word(&self, addr: u32) -> u32 {
        self.get(MEMORY + addr as u64, 4) as u32
    }

    fn pc(&self) -> u32 {
        self.get(EXECUTOR, 4) as u32
    }

    fn clk(&self) -> u32 {
        self.get(EXECUTOR + 8, 4) as u32
    }

    fn global_clk(&self) -> u64 {
        self.get(EXECUTOR + 16, 8)
    }

    fn current_shard(&self) -> u32 {
        self.get(EXECUTOR + 24, 4) as u32
    }

    fn events(&self, opcode: Opcode) -> u64 {
        self.get(EVENTS + 8 * opcode.index() as u64, 8)
    }

    fn register_access_meta(&self, r: u32) -> (u32, u32) {
        (self.get(SHARDS[0] + 4 * r as u64, 4) as u32, self.get(CLKS[0] + 4 * r as u64, 4) as u32)
    }

    fn memory_access_meta(&self, addr: u32) -> (u32, u32) {
        (self.get(SHARDS[1] + addr as u64, 4) as u32, self.get(CLKS[1] + addr as u64, 4) as u32)
    }

    fn limits(&self) -> ShardLimits {
        ShardLimits {
            max_cycles: None,
            max_syscall_cycles: 100,
            shard_size: self.shard_size,
            shape_check_frequency: self.frequency,
            lde_size_check: false,
            lde_size_threshold: 0,
            maximal_shapes: None,
            costs: AirCosts::filled(1),
            program_size: self.program.instructions.len() as u64,
        }
    }

    fn call(&mut self, target: u64) {
        let first = self.reg("rdi");
        let second = self.reg("rsi");
        assert_eq!(first, EXECUTOR);
        let instruction = if target >= 0xf008 {
            Some(self.program.instructions[((second - INSTRUCTIONS) / 24) as usize])
        } else {
            None
        };
        let result = match target {
            0xf001 => [REGISTERS, MEMORY][second as usize],
            0xf002 => SHARDS[second as usize],
            0xf003 => CLKS[second as usize],
            0xf004 => self.pc() as u64,
            0xf005 => {
                self.put(EXECUTOR, second, 4);
                0
            }
            0xf006 => {
                let mut state = ExecutionState::new(self.pc(), 0);
                state.clk = self.clk();
                state.global_clk = self.global_clk();
                state.current_shard = self.current_shard();
                let counts = LocalExecutionCounts {
                    event_counts: vec![0; NUM_OPCODES],
                    local_mem: 0,
                    syscalls_sent: 0,
                };
                let limits = self.limits();
                let ended =
                    inc_shard_if_need(&mut state, &limits, &counts, &PrecompileEvents::default(), &mut None)
                        .unwrap();
                self.ended_shards.extend(state.records_clk.iter());
                self.put(EXECUTOR + 8, state.clk as u64, 4);
                self.put(EXECUTOR + 24, state.current_shard as u64, 4);
                ended as u64
            }
            0xf007 => {
                assert_eq!(self.register(2), 0, "only halting is modelled");
                self.exited = true;
                self.put(EXECUTOR, 0, 4);
                0
            }
            _ => {
                self.carry_out(target, instruction.unwrap());
                0
            }
        };
        for clobbered in ["rcx", "rdx", "rsi", "rdi", "r8", "r9", "r10", "r11"] {
            self.set(clobbered, 0xdead_beef_dead_beef);
        }
        // Reading a field leaves the vectors alone; anything longer may use them.
        if target > 0xf005 {
            self.xmm = [[0xdead; 4]; 16];
        }
        self.set("rax", result);
    }

    fn carry_out(&mut self, target: u64, i: Instruction) {
        let a = self.register(i.op_a);
        let b = self.register(i.op_b as u8);
        let (lo, hi) = (self.register(32), self.register(33));
        let accumulate = |f: fn(u32, u32, u32, u32) -> (u32, u32), c: u32| f(b, c, lo, hi);
        match target {
            0xf008 => {
                let c = self.register(i.op_c as u8);
                self.set_register(i.op_a, vm::condmov_result(i.opcode, a, b, c));
            }
            0xf010..=0xf013 => {
                let c = self.register(i.op_c as u8);
                let f: [fn(u32, u32, u32, u32) -> (u32, u32); 4] =
                    [vm::maddu, vm::msubu, vm::madd, vm::msub];
                let (lo, hi) = accumulate(f[(target - 0xf010) as usize], c);
                self.set_register(32, lo);
                self.set_register(33, hi);
            }
            0xf014 => self.set_register(i.op_a, vm::wsbh(b)),
            0xf015 => self.set_register(i.op_a, vm::ext(b, i.op_c).unwrap()),
            0xf016 => self.set_register(i.op_a, vm::sext(b, i.op_c)),
            0xf017 => self.set_register(i.op_a, vm::ins(a, b, i.op_c).unwrap()),
            0xf018 => vm::teq(a, b).unwrap(),
            _ => panic!("unknown function {target:#x}"),
        }
    }

    /// Runs the code once, from its entry to its return.
    fn run(&mut self) {
        for row in PARTS.iter() {
            self.gprs.insert(row[0], 0x1111_2222_3333_4444);
        }
        self.set("rsp", STACK);
        self.push(0xffff_ffff);
        self.set("rdi", EXECUTOR);
        let saved: Vec<u64> =
            ["rbx", "rbp", "r12", "r13", "r14", "r15"].iter().map(|r| self.reg(r)).collect();
        let mut at = self.labels["asm_run"];
        let mut steps = 0;
        loop {
            steps += 1;
            assert!(steps < 2_000_000, "the code does not end");
            let line = self.lines[at].clone();
            at += 1;
            if line.is_empty() || line.ends_with(':') || line.starts_with('#') || line.starts_with('.')
            {
                continue;
            }
            let (op, rest) = match line.find(' ') {
                Some(k) => (line[..k].to_string(), line[k + 1..].trim_start().to_string()),
                None => (line.clone(), String::new()),
            };
            let o: Vec<String> =
                rest.split(", ").filter(|s| !s.is_empty()).map(|s| s.to_string()).collect();
            if op == "ret" {
                assert_eq!(self.pop(), 0xffff_ffff);
                assert_eq!(self.reg("rsp"), STACK);
                let now: Vec<u64> =
                    ["rbx", "rbp", "r12", "r13", "r14", "r15"].iter().map(|r| self.reg(r)).collect();
                assert_eq!(now, saved, "the registers of the caller");
                return;
            }
            if let Some(target) = self.execute(&op, &o) {
                at = target;
            }
        }
    }

    fn xmm_index(name: &str) -> usize {
        name.strip_prefix("xmm").unwrap().parse().unwrap()
    }

    fn execute(&mut self, op: &str, o: &[String]) -> Option<usize> {
        let jump = |taken: bool| if taken { Some(self.labels[&o[0]]) } else { None };
        match op {
            "jmp" => {
                return Some(if part(&o[0]).is_some() {
                    (self.reg(&o[0]) - CODE) as usize
                } else {
                    self.labels[&o[0]]
                })
            }
            "je" => return jump(self.flags.zero),
            "jne" | "jnz" => return jump(!self.flags.zero),
            "js" => return jump(self.flags.sign),
            "jns" => return jump(!self.flags.sign),
            "jle" => return jump(self.flags.zero || self.flags.less),
            "jg" => return jump(!self.flags.zero && !self.flags.less),
            "jae" => return jump(!self.flags.carry),
            "call" => {
                let target = self.reg(&o[0]);
                self.call(target);
            }
            "push" => {
                let v = self.reg(&o[0]);
                self.push(v);
            }
            "pop" => {
                let v = self.pop();
                self.set(&o[0], v);
            }
            "pextrd" => {
                let v = self.xmm[Self::xmm_index(&o[1])][Self::number(&o[2]) as usize];
                self.set(&o[0], v as u64);
            }
            "pinsrd" => {
                let v = self.reg(&o[1]) as u32;
                self.xmm[Self::xmm_index(&o[0])][Self::number(&o[2]) as usize] = v;
            }
            "pextrq" => {
                let x = self.xmm[Self::xmm_index(&o[1])];
                let k = 2 * Self::number(&o[2]) as usize;
                let v = x[k] as u64 | ((x[k + 1] as u64) << 32);
                self.write(&o[0], v, 64);
            }
            "pinsrq" => {
                let v = self.reg(&o[1]);
                let k = 2 * Self::number(&o[2]) as usize;
                let x = &mut self.xmm[Self::xmm_index(&o[0])];
                x[k] = v as u32;
                x[k + 1] = (v >> 32) as u32;
            }
            "movq" => {
                let x = self.xmm[Self::xmm_index(&o[1])];
                self.put(self.address(&o[0]), x[0] as u64 | ((x[1] as u64) << 32), 8);
            }
            "lea" => {
                let v = self.address(&o[1]);
                self.set(&o[0], v);
            }
            "movsxd" => {
                let v = self.get(self.address(&o[1]), 4) as u32 as i32 as i64 as u64;
                self.set(&o[0], v);
            }
            "movzx" | "movsx" => {
                let bits = if o[1].starts_with("byte") || part(&o[1]).map(|p| p.1) == Some(8) {
                    8
                } else {
                    16
                };
                let v = self.read(&o[1], bits) & mask(bits);
                let v = if op == "movzx" {
                    v
                } else if bits == 8 {
                    v as u8 as i8 as i32 as u32 as u64
                } else {
                    v as u16 as i16 as i32 as u32 as u64
                };
                self.set(&o[0], v);
            }
            "cdq" => {
                let v = if (self.reg("eax") as i32) < 0 { 0xffff_ffff } else { 0 };
                self.set("edx", v);
            }
            "setl" => self.set(&o[0], self.flags.less as u64),
            "setb" => self.set(&o[0], self.flags.carry as u64),
            "mul" | "imul" | "div" | "idiv" if o.len() == 1 => self.wide(op, &o[0]),
            "shlx" | "shrx" | "sarx" => {
                let x = self.reg(&o[1]) as u32;
                let n = self.reg(&o[2]) as u32 & 31;
                let v = match op {
                    "shlx" => x << n,
                    "shrx" => x >> n,
                    _ => ((x as i32) >> n) as u32,
                };
                self.set(&o[0], v as u64);
            }
            _ => self.simple(op, o),
        }
        None
    }

    fn wide(&mut self, op: &str, operand: &str) {
        let (_, bits) = part(operand).unwrap();
        let s = self.reg(operand);
        if bits == 64 {
            assert_eq!(op, "div");
            assert_eq!(self.reg("rdx"), 0);
            let n = self.reg("rax");
            self.set("rax", n / s);
            self.set("rdx", n % s);
            return;
        }
        let eax = self.reg("eax");
        let (lo, hi) = match op {
            "mul" => {
                let p = eax * s;
                (p, p >> 32)
            }
            "imul" => {
                let p = ((eax as i32 as i64) * (s as i32 as i64)) as u64;
                (p, p >> 32)
            }
            "div" => {
                let n = (self.reg("edx") << 32) | eax;
                (n / s, n % s)
            }
            _ => {
                let n = ((self.reg("edx") << 32) | eax) as i64;
                let d = s as i32 as i64;
                ((n / d) as u64, (n % d) as u64)
            }
        };
        self.set("eax", lo);
        self.set("edx", hi);
    }

    fn simple(&mut self, op: &str, o: &[String]) {
        let bits = Self::width(o);
        let x = self.read(&o[0], bits);
        let y = if o.len() > 1 { self.read(&o[1], bits) } else { 0 };
        let top = |v: u64| (v >> (bits - 1)) & 1 == 1;
        let signed = |v: u64| if top(v) { (v | !mask(bits)) as i64 } else { v as i64 };
        let v = match op {
            "mov" => y,
            "add" => x.wrapping_add(y),
            "sub" => x.wrapping_sub(y),
            "and" => x & y,
            "or" => x | y,
            "xor" => x ^ y,
            "imul" => x.wrapping_mul(y),
            "not" => !x,
            "inc" => x.wrapping_add(1),
            "lzcnt" => (y as u32).leading_zeros() as u64,
            "shl" => x << (y & 31),
            "shr" => x >> (y & 31),
            "sar" => (((x as u32) as i32) >> (y & 31)) as u32 as u64,
            "ror" => (x as u32).rotate_right((y & 31) as u32) as u64,
            "cmp" => {
                let d = x.wrapping_sub(y) & mask(bits);
                self.flags =
                    Flags { zero: x == y, sign: top(d), carry: x < y, less: signed(x) < signed(y) };
                return;
            }
            "test" => {
                let t = x & y;
                self.flags = Flags { zero: t == 0, sign: top(t), carry: false, less: top(t) };
                return;
            }
            _ => panic!("unknown operation {op} {o:?}"),
        };
        self.write(&o[0], v & mask(bits), bits);
    }

    /// Runs shard after shard until the program has ended.
    fn metered_run(&mut self) {
        self.compile(ExecutorMode::Checkpoint);
        loop {
            self.run();
            let offset = self.pc().wrapping_sub(self.program.pc_base);
            if self.exited
                || self.pc() == 0
                || offset >= (self.program.instructions.len() * 4) as u32
            {
                return;
            }
        }
    }

    fn pure_run(&mut self) {
        self.compile(ExecutorMode::Simple);
        self.run();
    }
}

fn metered(instructions: Vec<Instruction>) -> Runtime {
    let mut runtime = Runtime::new(Program::new(instructions, 0, 0));
    runtime.metered_run();
    runtime
}

fn op(opcode: Opcode, a: u8, b: u32, c: u32, imm_b: bool, imm_c: bool) -> Instruction {
    Instruction::new(opcode, a, b, c, imm_b, imm_c)
}

fn simple_op_code_test(opcode: Opcode, expected: u32, a: u32, b: u32) {
    let runtime = metered(vec![
        op(Opcode::ADD, 29, 0, a, false, true),
        op(Opcode::ADD, 30, 0, b, false, true),
        op(opcode, 31, 29, 30, false, false),
    ]);
    assert_eq!(runtime.register(31), expected);
    assert_eq!(runtime.pc(), 12);
    assert_eq!(runtime.register_access_meta(29), (1, 12));
    assert_eq!(runtime.register_access_meta(30), (1, 11));
    assert_eq!(runtime.register_access_meta(31), (1, 13));
}

fn simple_op_code_i_test(opcode: Opcode, expected: u32, a: u32, b: u32, c: u32) {
    let runtime = metered(vec![
        op(Opcode::ADD, 29, 0, a, false, true),
        op(opcode, 30, 29, b, false, true),
        op(opcode, 31, 30, c, false, true),
    ]);
    assert_eq!(runtime.register(31), expected);
    assert_eq!(runtime.pc(), 12);
    assert_eq!(runtime.register_access_meta(29), (1, 7));
    assert_eq!(runtime.register_access_meta(30), (1, 12));
    assert_eq!(runtime.register_access_meta(31), (1, 13));
}

fn lo_hi_op_code_test(opcode: Opcode, expected_hi: u32, expected_lo: u32, b: u32, c: u32) {
    let runtime = metered(vec![
        op(Opcode::ADD, 29, 0, b, false, true),
        op(Opcode::ADD, 30, 0, c, false, true),
        op(opcode, 31, 29, 30, false, false),
    ]);
    assert_eq!(runtime.register(32), expected_lo);
    assert_eq!(runtime.register(33), expected_hi);
    assert_eq!(runtime.register_access_meta(29), (1, 12));
    assert_eq!(runtime.register_access_meta(30), (1, 11));
    assert_eq!(runtime.register_access_meta(32), (1, 13));
    assert_eq!(runtime.register_access_meta(33), (1, 14));
}

fn m_lo_hi_op_code_test(
    opcode: Opcode,
    expected_hi: u32,
    expected_lo: u32,
    hi: u32,
    lo: u32,
    b: u32,
    c: u32,
) {
    let runtime = metered(vec![
        op(Opcode::ADD, Register::LO.index(), 0, lo, false, true),
        op(Opcode::ADD, Register::HI.index(), 0, hi, false, true),
        op(Opcode::ADD, 29, 0, b, false, true),
        op(Opcode::ADD, 30, 0, c, false, true),
        op(opcode, Register::LO.index(), 29, 30, false, false),
    ]);
    assert_eq!(runtime.register(32), expected_lo);
    assert_eq!(runtime.register(33), expected_hi);
    assert_eq!(runtime.register_access_meta(29), (1, 22));
    assert_eq!(runtime.register_access_meta(30), (1, 21));
    assert_eq!(runtime.register_access_meta(32), (1, 23));
    assert_eq!(runtime.register_access_meta(33), (1, 24));
}

fn op_code_one_i_test(opcode: Opcode, expected: u32, b: u32, c: u32) {
    let runtime = metered(vec![
        op(Opcode::ADD, 29, 0, b, false, true),
        op(opcode, 31, 29, c, false, true),
    ]);
    assert_eq!(runtime.register(31), expected);
    assert_eq!(runtime.register_access_meta(29), (1, 7));
    assert_eq!(runtime.register_access_meta(31), (1, 8));
}

fn op_code_one_test(opcode: Opcode, expected: u32, c: u32) {
    op_code_one_i_test(opcode, expected, c, c);
}

#[test]
fn test_aot_metered_add() {
    simple_op_code_test(Opcode::ADD, 37 + 5, 37, 5);
    simple_op_code_i_test(Opcode::ADD, 37 + 5 + 42, 37, 5, 42);
    simple_op_code_i_test(Opcode::ADD, 5 - 1 + 4, 5, 0xFFFF_FFFF, 4);
    let runtime = metered(vec![
        op(Opcode::ADD, 29, 0, 100, false, true),
        op(Opcode::ADD, 31, 0, 200, false, true),
        op(Opcode::ADD, 31, 29, 31, false, false),
    ]);
    assert_eq!(runtime.register(31), 300);
    assert_eq!(runtime.clk(), 15);
    assert_eq!(runtime.global_clk(), 3);
    assert_eq!(runtime.current_shard(), 1);
    assert_eq!(runtime.register_access_meta(29), (1, 12));
    assert_eq!(runtime.register_access_meta(31), (1, 13));
}

#[test]
fn test_aot_metered_sub() {
    simple_op_code_test(Opcode::SUB, 37 - 5, 37, 5);
    simple_op_code_i_test(Opcode::SUB, 37 - 5 - 2, 37, 5, 2);
    simple_op_code_i_test(Opcode::SUB, 5 + 1 - 4, 5, 0xFFFF_FFFF, 4);
}

#[test]
fn test_aot_metered_and() {
    simple_op_code_test(Opcode::AND, 37 & 5, 37, 5);
    simple_op_code_i_test(Opcode::AND, 37 & 5 & 42, 37, 5, 42);
}

#[test]
fn test_aot_metered_or() {
    simple_op_code_test(Opcode::OR, 37 | 5, 37, 5);
    simple_op_code_i_test(Opcode::OR, 37 | 5 | 42, 37, 5, 42);
}

#[test]
fn test_aot_metered_xor() {
    simple_op_code_test(Opcode::XOR, 37 ^ 5, 37, 5);
    simple_op_code_i_test(Opcode::XOR, 37 ^ 5 ^ 42, 37, 5, 42);
}

#[test]
fn test_aot_metered_mul() {
    simple_op_code_test(Opcode::MUL, 0x00001200, 0x00007e00, 0xb6db6db7);
    simple_op_code_test(Opcode::MUL, 0x00001240, 0x00007fc0, 0xb6db6db7);
    simple_op_code_test(Opcode::MUL, 0x00000000, 0x00000000, 0x00000000);
    simple_op_code_test(Opcode::MUL, 0x00000001, 0x00000001, 0x00000001);
    simple_op_code_test(Opcode::MUL, 0x00000015, 0x00000003, 0x00000007);
    simple_op_code_test(Opcode::MUL, 0x00000000, 0x00000000, 0xffff8000);
    simple_op_code_test(Opcode::MUL, 0x00000000, 0x80000000, 0x00000000);
    simple_op_code_test(Opcode::MUL, 0x00000000, 0x80000000, 0xffff8000);
    simple_op_code_test(Opcode::MUL, 0x0000ff7f, 0xaaaaaaab, 0x0002fe7d);
    simple_op_code_test(Opcode::MUL, 0x0000ff7f, 0x0002fe7d, 0xaaaaaaab);
    simple_op_code_test(Opcode::MUL, 0x00000000, 0xff000000, 0xff000000);
    simple_op_code_test(Opcode::MUL, 0x00000001, 0xffffffff, 0xffffffff);
    simple_op_code_test(Opcode::MUL, 0xffffffff, 0xffffffff, 0x00000001);
    simple_op_code_test(Opcode::MUL, 0xffffffff, 0x00000001, 0xffffffff);
}

#[test]
fn test_aot_metered_shift() {
    simple_op_code_test(Opcode::SLL, 1 << 2, 1, 2);
    simple_op_code_test(Opcode::SRL, 8 >> 1, 8, 1);
    simple_op_code_test(Opcode::SRA, 37 >> 4, 37, 4);
    let c = (((0x12345678 as u64) + ((0x12345678 as u64) << 32)) >> 4) as u32;
    simple_op_code_test(Opcode::ROR, c, 0x12345678, 4);

    simple_op_code_i_test(Opcode::SLL, 1 << 2 << 3, 1, 2, 3);
    simple_op_code_i_test(Opcode::SRL, 8 >> 1 >> 1, 8, 1, 1);
    simple_op_code_i_test(Opcode::SRA, 37 >> 4 >> 1, 37, 4, 1);
    let c = ((c as u64) + ((c as u64) << 32)) >> 4;
    simple_op_code_i_test(Opcode::ROR, c as u32, 0x12345678, 4, 4);

    let runtime = metered(vec![op(Opcode::SLL, 31, 40, 16, true, true)]);
    assert_eq!(runtime.register(31), 40 << 16);
}

#[test]
fn test_aot_metered_shifts() {
    for (b, c, expected) in [
        (0x00000001, 0, 0x00000001),
        (0x00000001, 1, 0x00000002),
        (0x00000001, 7, 0x00000080),
        (0x00000001, 14, 0x00004000),
        (0x00000001, 31, 0x80000000),
        (0xffffffff, 0, 0xffffffff),
        (0xffffffff, 1, 0xfffffffe),
        (0xffffffff, 7, 0xffffff80),
        (0xffffffff, 14, 0xffffc000),
        (0xffffffff, 31, 0x80000000),
        (0x21212121, 0, 0x21212121),
        (0x21212121, 1, 0x42424242),
        (0x21212121, 7, 0x90909080),
        (0x21212121, 14, 0x48484000),
        (0x21212121, 31, 0x80000000),
        (0x21212121, 0xffffffe0, 0x21212121),
        (0x21212121, 0xffffffe1, 0x42424242),
        (0x21212121, 0xffffffe7, 0x90909080),
        (0x21212121, 0xffffffee, 0x48484000),
        (0x21212120, 0xffffffff, 0x00000000),
    ] {
        simple_op_code_test(Opcode::SLL, expected, b, c);
    }
    for (b, c, expected) in [
        (0xffff8000, 0, 0xffff8000),
        (0xffff8000, 1, 0x7fffc000),
        (0xffff8000, 7, 0x01ffff00),
        (0xffff8000, 14, 0x0003fffe),
        (0xffff8001, 15, 0x0001ffff),
        (0xffffffff, 0, 0xffffffff),
        (0xffffffff, 1, 0x7fffffff),
        (0xffffffff, 7, 0x01ffffff),
        (0xffffffff, 14, 0x0003ffff),
        (0xffffffff, 31, 0x00000001),
        (0x21212121, 0, 0x21212121),
        (0x21212121, 1, 0x10909090),
        (0x21212121, 7, 0x00424242),
        (0x21212121, 14, 0x00008484),
        (0x21212121, 31, 0x00000000),
        (0x21212121, 0xffffffe0, 0x21212121),
        (0x21212121, 0xffffffe1, 0x10909090),
        (0x21212121, 0xffffffe7, 0x00424242),
        (0x21212121, 0xffffffee, 0x00008484),
        (0x21212121, 0xffffffff, 0x00000000),
    ] {
        simple_op_code_test(Opcode::SRL, expected, b, c);
    }
    for (b, c, expected) in [
        (0x00000000, 0, 0x00000000),
        (0x80000000, 1, 0xc0000000),
        (0x80000000, 7, 0xff000000),
        (0x80000000, 14, 0xfffe0000),
        (0x80000001, 31, 0xffffffff),
        (0x7fffffff, 0, 0x7fffffff),
        (0x7fffffff, 1, 0x3fffffff),
        (0x7fffffff, 7, 0x00ffffff),
        (0x7fffffff, 14, 0x0001ffff),
        (0x7fffffff, 31, 0x00000000),
        (0x81818181, 0, 0x81818181),
        (0x81818181, 1, 0xc0c0c0c0),
        (0x81818181, 7, 0xff030303),
        (0x81818181, 14, 0xfffe0606),
        (0x81818181, 31, 0xffffffff),
    ] {
        simple_op_code_test(Opcode::SRA, expected, b, c);
    }
}

#[test]
fn test_aot_metered_mult() {
    let mult = |b: u32, c: u32| -> (u32, u32) {
        let out = (((b as i32) as i64) * ((c as i32) as i64)) as u64;
        (out as u32, (out >> 32) as u32)
    };
    let multu = |b: u32, c: u32| -> (u32, u32) {
        let out = b as u64 * c as u64;
        (out as u32, (out >> 32) as u32)
    };
    let tests = vec![(10, 3), (100, 7), (1234, 56), (0xffff, 0xff), (u32::MAX - 1, u32::MAX - 2)];
    for (b, c) in tests {
        let (lo, hi) = mult(b, c);
        lo_hi_op_code_test(Opcode::MULT, hi, lo, b, c);
        let (lo, hi) = multu(b, c);
        lo_hi_op_code_test(Opcode::MULTU, hi, lo, b, c);
    }
}

#[test]
fn test_aot_metered_div() {
    let div = |b: u32, c: u32| -> (u32, u32) {
        (((b as i32) / (c as i32)) as u32, ((b as i32) % (c as i32)) as u32)
    };
    let divu = |b: u32, c: u32| -> (u32, u32) { (b / c, b % c) };
    let tests = vec![(10, 3), (100, 7), (1234, 56), (0xffff, 0xff), (u32::MAX - 1, u32::MAX - 2)];
    for (b, c) in tests {
        let (lo, hi) = div(b, c);
        lo_hi_op_code_test(Opcode::DIV, hi, lo, b, c);
        let (lo, hi) = divu(b, c);
        lo_hi_op_code_test(Opcode::DIVU, hi, lo, b, c);
    }
}

#[test]
fn test_aot_metered_mod() {
    let modu_tests =
        vec![(10, 3), (100, 7), (1234, 56), (0xffff, 0xff), (u32::MAX - 1, u32::MAX - 2)];
    for (b, c) in modu_tests {
        simple_op_code_test(Opcode::MODU, b % c, b, c);
    }
    let mod_signed = |b: u32, c: u32| -> u32 { ((b as i32) % (c as i32)) as u32 };
    let mod_tests = vec![
        (10, 3),
        (100, 7),
        (1234, 56),
        (0xffff, 0xff),
        (u32::MAX - 1, u32::MAX - 2),
        (0xffff_ffff, 3),
        (0xffff_fffe, 7),
    ];
    for (b, c) in mod_tests {
        simple_op_code_test(Opcode::MOD, mod_signed(b, c), b, c);
    }
}

#[test]
fn test_aot_metered_slt() {
    for opcode in [Opcode::SLT, Opcode::SLTU] {
        simple_op_code_test(opcode, 1, 5, 10);
        simple_op_code_test(opcode, 0, 10, 5);
        simple_op_code_test(opcode, 0, 10, 10);
        op_code_one_i_test(opcode, 1, 5, 10);
        op_code_one_i_test(opcode, 0, 10, 5);
        op_code_one_i_test(opcode, 0, 10, 10);
    }
    simple_op_code_test(Opcode::SLT, 1, 0xffff_ffff, 0);
    simple_op_code_test(Opcode::SLTU, 0, 0xffff_ffff, 0);
}

#[test]
fn test_aot_metered_nor() {
    let nor = |b: u32, c: u32| -> u32 { !(b | c) };
    let tests = vec![(10, 3), (100, 7), (1234, 56), (0xffff, 0xff), (u32::MAX - 1, u32::MAX - 2)];
    for (b, c) in tests {
        simple_op_code_test(Opcode::NOR, nor(b, c), b, c);
    }
}

#[test]
fn test_aot_metered_cloz() {
    for b in [10u32, 100, 1234, 0xffff, u32::MAX - 1] {
        op_code_one_test(Opcode::CLZ, b.leading_zeros(), b);
        op_code_one_test(Opcode::CLO, b.leading_ones(), b);
    }
}

#[test]
fn test_aot_metered_beq_jump() {
    let runtime = metered(vec![
        op(Opcode::ADD, 29, 0, 1, false, true),
        op(Opcode::ADD, 30, 0, 1, false, true),
        op(Opcode::BEQ, 29, 30, 8, false, false),
        op(Opcode::ADD, 31, 0, 1, false, true),
        op(Opcode::ADD, 32, 0, 1, false, true),
        op(Opcode::ADD, 33, 0, 1, false, true),
    ]);
    assert_eq!(runtime.pc(), 24);
    assert_eq!(runtime.register_access_meta(29), (1, 13));
    assert_eq!(runtime.register_access_meta(30), (1, 12));
    assert_eq!(runtime.register_access_meta(31), (1, 18));
    assert_eq!(runtime.register_access_meta(32), (0, 0));
    assert_eq!(runtime.register_access_meta(33), (1, 23));
    assert_eq!(runtime.events(Opcode::BEQ), 1);
}

#[test]
fn test_aot_metered_beq_not_jump() {
    let runtime = metered(vec![
        op(Opcode::ADD, 29, 0, 1, false, true),
        op(Opcode::ADD, 30, 0, 2, false, true),
        op(Opcode::BEQ, 29, 30, 100, false, false),
        op(Opcode::ADD, 31, 0, 1, false, true),
    ]);
    assert_eq!(runtime.pc(), 16);
    assert_eq!(runtime.register_access_meta(29), (1, 13));
    assert_eq!(runtime.register_access_meta(30), (1, 12));
    assert_eq!(runtime.register_access_meta(31), (1, 18));
}

#[test]
fn test_aot_metered_bne_jump() {
    let runtime = metered(vec![
        op(Opcode::BNE, 4, 1, 8, true, true),
        op(Opcode::SW, 31, 0, 0x10000000, false, true),
        op(Opcode::ADD, 32, 0, 1, false, true),
    ]);
    assert_eq!(runtime.pc(), 12);
    assert_eq!(runtime.register_access_meta(4), (1, 3));
    assert_eq!(runtime.register_access_meta(31), (1, 8));
    assert_eq!(runtime.register_access_meta(32), (1, 13));
    assert_eq!(runtime.memory_access_meta(0x10000000), (1, 5));
}

#[test]
fn test_aot_metered_bne_not_jump() {
    let runtime = metered(vec![
        op(Opcode::BNE, 4, 0, 100, true, true),
        op(Opcode::ADD, 31, 0, 1, false, true),
    ]);
    assert_eq!(runtime.pc(), 8);
    assert_eq!(runtime.register_access_meta(4), (1, 3));
    assert_eq!(runtime.register_access_meta(31), (1, 8));
}

#[test]
fn test_aot_metered_bltz_jump() {
    let runtime = metered(vec![
        op(Opcode::ADD, 29, 0, 0xFFFF_FFFF, false, true),
        op(Opcode::BLTZ, 29, 0, 4, true, true),
        op(Opcode::ADD, 31, 0, 1, false, true),
        op(Opcode::ADD, 32, 0, 1, false, true),
    ]);
    assert_eq!(runtime.pc(), 16);
    assert_eq!(runtime.register_access_meta(29), (1, 8));
    assert_eq!(runtime.register_access_meta(31), (1, 13));
    assert_eq!(runtime.register_access_meta(32), (1, 18));
}

#[test]
fn test_aot_metered_blez_jump() {
    let runtime = metered(vec![
        op(Opcode::BLEZ, 4, 0, 4, true, true),
        op(Opcode::ADD, 31, 0, 1, false, true),
        op(Opcode::ADD, 32, 0, 1, false, true),
    ]);
    assert_eq!(runtime.pc(), 12);
    assert_eq!(runtime.register_access_meta(4), (1, 3));
    assert_eq!(runtime.register_access_meta(31), (1, 8));
    assert_eq!(runtime.register_access_meta(32), (1, 13));
}

#[test]
fn test_aot_metered_bgtz_jump() {
    let runtime = metered(vec![
        op(Opcode::ADD, 29, 0, 1, false, true),
        op(Opcode::BGTZ, 29, 0, 4, true, true),
        op(Opcode::ADD, 31, 0, 1, false, true),
        op(Opcode::ADD, 32, 0, 1, false, true),
    ]);
    assert_eq!(runtime.pc(), 16);
    assert_eq!(runtime.register_access_meta(29), (1, 8));
    assert_eq!(runtime.register_access_meta(31), (1, 13));
    assert_eq!(runtime.register_access_meta(32), (1, 18));
}

#[test]
fn test_aot_metered_bgez_jump() {
    let runtime = metered(vec![
        op(Opcode::BGEZ, 4, 0, 4, true, true),
        op(Opcode::ADD, 31, 0, 1, false, true),
        op(Opcode::ADD, 32, 0, 1, false, true),
        op(Opcode::ADD, 33, 0, 1, false, true),
    ]);
    assert_eq!(runtime.pc(), 16);
    assert_eq!(runtime.register_access_meta(4), (1, 3));
    assert_eq!(runtime.register_access_meta(31), (1, 8));
    assert_eq!(runtime.register_access_meta(32), (1, 13));
    assert_eq!(runtime.register_access_meta(33), (1, 18));
}

#[test]
fn test_aot_metered_bltz_not_jump() {
    let runtime = metered(vec![
        op(Opcode::BLTZ, 4, 0, 100, true, true),
        op(Opcode::ADD, 31, 0, 1, false, true),
    ]);
    assert_eq!(runtime.pc(), 8);
    assert_eq!(runtime.register_access_meta(4), (1, 3));
    assert_eq!(runtime.register_access_meta(31), (1, 8));
}

#[test]
fn test_aot_metered_blez_not_jump() {
    let runtime = metered(vec![
        op(Opcode::ADD, 29, 0, 1, false, true),
        op(Opcode::BLEZ, 29, 0, 100, true, true),
        op(Opcode::ADD, 31, 0, 1, false, true),
    ]);
    assert_eq!(runtime.pc(), 12);
    assert_eq!(runtime.register_access_meta(29), (1, 8));
    assert_eq!(runtime.register_access_meta(31), (1, 13));
}

#[test]
fn test_aot_metered_bgtz_not_jump() {
    let runtime = metered(vec![
        op(Opcode::BGTZ, 4, 0, 100, true, true),
        op(Opcode::ADD, 31, 0, 1, false, true),
    ]);
    assert_eq!(runtime.pc(), 8);
    assert_eq!(runtime.register_access_meta(4), (1, 3));
    assert_eq!(runtime.register_access_meta(31), (1, 8));
}

#[test]
fn test_aot_metered_bgez_not_jump() {
    let runtime = metered(vec![
        op(Opcode::ADD, 29, 0, 0xFFFF_FFFF, false, true),
        op(Opcode::BGEZ, 29, 0, 100, true, true),
        op(Opcode::ADD, 31, 0, 1, false, true),
    ]);
    assert_eq!(runtime.pc(), 12);
    assert_eq!(runtime.register_access_meta(29), (1, 8));
    assert_eq!(runtime.register_access_meta(31), (1, 13));
}

#[test]
fn branches_against_zero_that_are_not_taken() {
    for (opcode, value) in [
        (Opcode::BLTZ, 0),
        (Opcode::BLEZ, 1),
        (Opcode::BGTZ, 0),
        (Opcode::BGEZ, 0xFFFF_FFFF),
    ] {
        let runtime = metered(vec![
            op(Opcode::ADD, 29, 0, value, false, true),
            op(opcode, 29, 0, 8, true, true),
            op(Opcode::ADD, 31, 0, 1, false, true),
            op(Opcode::ADD, 30, 0, 7, false, true),
        ]);
        assert_eq!(runtime.pc(), 16);
        assert_eq!(runtime.register(30), 7);
        assert_eq!(runtime.register_access_meta(29), (1, 8));
        assert_eq!(runtime.register_access_meta(31), (1, 13));
    }
}

#[test]
fn test_aot_metered_j() {
    let runtime = metered(vec![
        op(Opcode::Jumpi, 0, 8, 0, false, true),
        op(Opcode::ADD, 31, 0, 1, false, true),
        op(Opcode::ADD, 32, 0, 1, false, true),
    ]);
    assert_eq!(runtime.pc(), 12);
    assert_eq!(runtime.register_access_meta(31), (1, 8));
    assert_eq!(runtime.register_access_meta(32), (1, 13));
}

#[test]
fn test_aot_metered_jr() {
    let runtime = metered(vec![
        op(Opcode::ADD, 11, 11, 12, false, true),
        op(Opcode::Jump, 0, 11, 0, false, true),
        op(Opcode::ADD, 31, 0, 1, false, true),
        op(Opcode::ADD, 32, 0, 1, false, true),
    ]);
    assert_eq!(runtime.pc(), 16);
    assert_eq!(runtime.register_access_meta(11), (1, 7));
    assert_eq!(runtime.register_access_meta(31), (1, 13));
    assert_eq!(runtime.register_access_meta(32), (1, 18));
}

#[test]
fn test_aot_metered_jal() {
    let runtime = metered(vec![
        op(Opcode::Jumpi, 13, 8, 0, false, true),
        op(Opcode::ADD, 31, 0, 1, false, true),
        op(Opcode::ADD, 32, 0, 1, false, true),
    ]);
    assert_eq!(runtime.pc(), 12);
    assert_eq!(runtime.register(13), 8);
    assert_eq!(runtime.register_access_meta(13), (1, 3));
    assert_eq!(runtime.register_access_meta(31), (1, 8));
    assert_eq!(runtime.register_access_meta(32), (1, 13));
}

#[test]
fn test_aot_metered_jalr() {
    let runtime = metered(vec![
        op(Opcode::ADD, 11, 11, 12, false, true),
        op(Opcode::Jump, 13, 11, 0, false, true),
        op(Opcode::ADD, 31, 0, 1, false, true),
        op(Opcode::ADD, 32, 0, 1, false, true),
    ]);
    assert_eq!(runtime.pc(), 16);
    assert_eq!(runtime.register(13), 12);
    assert_eq!(runtime.register_access_meta(11), (1, 7));
    assert_eq!(runtime.register_access_meta(13), (1, 8));
    assert_eq!(runtime.register_access_meta(31), (1, 13));
    assert_eq!(runtime.register_access_meta(32), (1, 18));
}

#[test]
fn test_aot_metered_bal() {
    let runtime = metered(vec![
        op(Opcode::JumpDirect, 31, 4, 0, false, true),
        op(Opcode::ADD, 1, 0, 1, false, true),
        op(Opcode::ADD, 2, 0, 1, false, true),
    ]);
    assert_eq!(runtime.pc(), 12);
    assert_eq!(runtime.register(31), 8);
    assert_eq!(runtime.register_access_meta(31), (1, 3));
}

fn simple_memory_program() -> Vec<Instruction> {
    vec![
        op(Opcode::ADD, 29, 0, 0x12348765, false, true),
        op(Opcode::SW, 29, 0, 0x27654320, false, true),
        op(Opcode::LW, 28, 0, 0x27654320, false, true),
        op(Opcode::LBU, 27, 0, 0x27654320, false, true),
        op(Opcode::LBU, 26, 0, 0x27654321, false, true),
        op(Opcode::LBU, 25, 0, 0x27654322, false, true),
        op(Opcode::LBU, 24, 0, 0x27654323, false, true),
        op(Opcode::LB, 23, 0, 0x27654320, false, true),
        op(Opcode::LB, 22, 0, 0x27654321, false, true),
        op(Opcode::LHU, 21, 0, 0x27654320, false, true),
        op(Opcode::LHU, 20, 0, 0x27654322, false, true),
        op(Opcode::LH, 19, 0, 0x27654320, false, true),
        op(Opcode::LH, 18, 0, 0x27654322, false, true),
        op(Opcode::ADD, 17, 0, 0x38276525, false, true),
        op(Opcode::SW, 29, 0, 0x43627530, false, true),
        op(Opcode::SB, 17, 0, 0x43627530, false, true),
        op(Opcode::LW, 16, 0, 0x43627530, false, true),
        op(Opcode::SB, 17, 0, 0x43627531, false, true),
        op(Opcode::LW, 15, 0, 0x43627530, false, true),
        op(Opcode::SB, 17, 0, 0x43627532, false, true),
        op(Opcode::LW, 14, 0, 0x43627530, false, true),
        op(Opcode::SB, 17, 0, 0x43627533, false, true),
        op(Opcode::LW, 13, 0, 0x43627530, false, true),
        op(Opcode::SW, 29, 0, 0x43627530, false, true),
        op(Opcode::SH, 17, 0, 0x43627530, false, true),
        op(Opcode::LW, 12, 0, 0x43627530, false, true),
        op(Opcode::SH, 17, 0, 0x43627532, false, true),
        op(Opcode::LW, 11, 0, 0x43627530, false, true),
    ]
}

#[test]
fn test_aot_metered_simple_memory_program_run() {
    let runtime = metered(simple_memory_program());
    let expected = [
        (28, 0x12348765),
        (27, 0x65),
        (26, 0x87),
        (25, 0x34),
        (24, 0x12),
        (23, 0x65),
        (22, 0xffffff87),
        (21, 0x8765),
        (20, 0x1234),
        (19, 0xffff8765),
        (18, 0x1234),
        (16, 0x12348725),
        (15, 0x12342525),
        (14, 0x12252525),
        (13, 0x25252525),
        (12, 0x12346525),
        (11, 0x65256525),
    ];
    for (r, value) in expected {
        assert_eq!(runtime.register(r), value, "register {r}");
    }
    assert_eq!(runtime.events(Opcode::LW), 7);
    assert_eq!(runtime.get(EXECUTOR + 40, 4), 2, "two words were touched");
}

#[test]
fn test_aot_metered_sc() {
    let runtime = metered(vec![
        op(Opcode::ADD, 29, 0, 0x12348765, false, true),
        op(Opcode::SC, 29, 0, 0x43627530, false, true),
        op(Opcode::LW, 28, 0, 0x43627530, false, true),
    ]);
    assert_eq!(runtime.register(28), 0x12348765);
    assert_eq!(runtime.register(29), 1);
}

#[test]
fn test_aot_metered_swl() {
    let runtime = metered(vec![
        op(Opcode::ADD, 29, 0, 0xaabbccdd, false, true),
        op(Opcode::SW, 29, 0, 0x10000000, false, true),
        op(Opcode::ADD, 28, 0, 0x12345678, false, true),
        op(Opcode::SWL, 28, 0, 0x10000001, false, true),
    ]);
    assert_eq!(runtime.word(0x10000000), 0xaabb1234);
    assert_eq!(runtime.register_access_meta(29), (1, 8));
    assert_eq!(runtime.register_access_meta(28), (1, 18));
    assert_eq!(runtime.memory_access_meta(0x10000000), (1, 15));
}

#[test]
fn test_aot_metered_unaligned_memory_program_run() {
    let mut code = vec![
        op(Opcode::ADD, 29, 0, 0x12345678, false, true),
        op(Opcode::SW, 29, 0, 0x10000000, false, true),
    ];
    for r in 21..=28 {
        code.push(op(Opcode::ADD, r, 0, 0xaabbccdd, false, true));
    }
    for (opcode, r, k) in [
        (Opcode::LWL, 28, 1),
        (Opcode::LWL, 27, 2),
        (Opcode::LWL, 26, 3),
        (Opcode::LWL, 25, 0),
        (Opcode::LWR, 24, 1),
        (Opcode::LWR, 23, 2),
        (Opcode::LWR, 22, 3),
        (Opcode::LWR, 21, 0),
    ] {
        code.push(op(opcode, r, 0, 0x10000000 + k, false, true));
    }
    for (opcode, base, k) in [
        (Opcode::SWL, 0x11000000, 1),
        (Opcode::SWL, 0x12000000, 2),
        (Opcode::SWL, 0x13000000, 3),
        (Opcode::SWL, 0x14000000, 0),
        (Opcode::SWR, 0x15000000, 1),
        (Opcode::SWR, 0x16000000, 2),
        (Opcode::SWR, 0x17000000, 3),
        (Opcode::SWR, 0x18000000, 0),
    ] {
        code.push(op(Opcode::SW, 29, 0, base, false, true));
        code.push(op(opcode, 28, 0, base + k, false, true));
    }
    let runtime = metered(code);
    assert_eq!(runtime.word(0x10000000), 0x12345678);
    assert_eq!(runtime.register(28), 0x5678ccdd);
    assert_eq!(runtime.register(27), 0x345678dd);
    assert_eq!(runtime.register(26), 0x12345678);
    assert_eq!(runtime.register(25), 0x78bbccdd);

    assert_eq!(runtime.register(24), 0xaa123456);
    assert_eq!(runtime.register(23), 0xaabb1234);
    assert_eq!(runtime.register(22), 0xaabbcc12);
    assert_eq!(runtime.register(21), 0x12345678);

    assert_eq!(runtime.word(0x11000000), 0x12345678);
    assert_eq!(runtime.word(0x12000000), 0x125678cc);
    assert_eq!(runtime.word(0x13000000), 0x5678ccdd);
    assert_eq!(runtime.word(0x14000000), 0x12345656);

    assert_eq!(runtime.word(0x15000000), 0x78ccdd78);
    assert_eq!(runtime.word(0x16000000), 0xccdd5678);
    assert_eq!(runtime.word(0x17000000), 0xdd345678);
    assert_eq!(runtime.word(0x18000000), 0x5678ccdd);
}

#[test]
fn unaligned_accesses_do_what_the_instructions_do() {
    let (old, value) = (0xaabbccddu32, 0x12345678u32);
    for r in [28u8, 11] {
        for k in 0..4u32 {
            for opcode in [Opcode::LWL, Opcode::LWR] {
                let runtime = metered(vec![
                    op(Opcode::ADD, 29, 0, value, false, true),
                    op(Opcode::SW, 29, 0, 0x10000000, false, true),
                    op(Opcode::ADD, r, 0, old, false, true),
                    op(opcode, r, 0, 0x10000000 + k, false, true),
                ]);
                assert_eq!(
                    runtime.register(r),
                    vm::load_value(opcode, 0x10000000 + k, value, old).unwrap(),
                    "{opcode:?} {r} {k}"
                );
            }
            for opcode in [Opcode::SWL, Opcode::SWR] {
                let runtime = metered(vec![
                    op(Opcode::ADD, 29, 0, old, false, true),
                    op(Opcode::SW, 29, 0, 0x10000000, false, true),
                    op(Opcode::ADD, r, 0, value, false, true),
                    op(opcode, r, 0, 0x10000000 + k, false, true),
                ]);
                assert_eq!(
                    runtime.word(0x10000000),
                    vm::store_value(opcode, 0x10000000 + k, old, value).unwrap(),
                    "{opcode:?} {r} {k}"
                );
                assert_eq!(runtime.register(r), value);
            }
        }
    }
}

#[test]
fn test_aot_metered_mov_cond() {
    simple_op_code_test(Opcode::MEQ, 10, 10, 0);
    simple_op_code_test(Opcode::MNE, 10, 10, 1);
}

#[test]
fn test_aot_metered_maddu() {
    let out = 300u64 * 400 + ((100u64 << 32) + 200);
    m_lo_hi_op_code_test(Opcode::MADDU, (out >> 32) as u32, out as u32, 100, 200, 300, 400);
}

#[test]
fn test_aot_metered_msubu() {
    let out = ((100u64 << 32) + 200).wrapping_sub(300u64 * 400);
    m_lo_hi_op_code_test(Opcode::MSUBU, (out >> 32) as u32, out as u32, 100, 200, 300, 400);
}

#[test]
fn test_aot_metered_madd() {
    let out = (300i64 * 400).wrapping_add(((100u64 << 32) + 200) as i64) as u64;
    m_lo_hi_op_code_test(Opcode::MADDU, (out >> 32) as u32, out as u32, 100, 200, 300, 400);
    m_lo_hi_op_code_test(Opcode::MADD, (out >> 32) as u32, out as u32, 100, 200, 300, 400);
}

#[test]
fn test_aot_metered_msub() {
    let out = (((100u64 << 32) + 200) as i64).wrapping_sub(300i64 * 400) as u64;
    m_lo_hi_op_code_test(Opcode::MSUBU, (out >> 32) as u32, out as u32, 100, 200, 300, 400);
    m_lo_hi_op_code_test(Opcode::MSUB, (out >> 32) as u32, out as u32, 100, 200, 300, 400);
}

#[test]
fn test_aot_metered_wsbh() {
    let b: u32 = 200;
    let expected = (((b >> 16) & 0xFF) << 24)
        | (((b >> 24) & 0xFF) << 16)
        | ((b & 0xFF) << 8)
        | ((b >> 8) & 0xFF);
    op_code_one_test(Opcode::WSBH, expected, 200);
}

#[test]
fn test_aot_metered_ext() {
    let ext = |b: u32, c: u32| -> u32 {
        let msbd = c >> 5;
        let lsb = c & 0x1f;
        let mask_msb =
            if msbd + lsb + 1 == 32 { 0xFFFFFFFF } else { (1u32 << (msbd + lsb + 1)) - 1 };
        (b & mask_msb) >> lsb
    };
    op_code_one_i_test(Opcode::EXT, ext(100, 200), 100, 200);
}

#[test]
fn test_aot_metered_sext() {
    let expected = (100u32 & 0xffff) as i16 as i32 as u32;
    op_code_one_i_test(Opcode::SEXT, expected, 100, 200);
}

#[test]
fn test_aot_metered_ins() {
    let ins = |a: u32, b: u32, c: u32| -> u32 {
        let msb = c >> 5;
        let lsb = c & 0x1f;
        let mask = if msb - lsb + 1 == 32 { 0xFFFFFFFF } else { (1u32 << (msb - lsb + 1)) - 1 };
        let mask_field = mask << lsb;
        (a & !mask_field) | ((b << lsb) & mask_field)
    };
    let runtime = metered(vec![
        op(Opcode::ADD, 29, 0, 100, false, true),
        op(Opcode::ADD, 30, 0, 200, false, true),
        op(Opcode::INS, 29, 30, 0, false, true),
    ]);
    assert_eq!(runtime.register(29), ins(100, 200, 0));
}

#[test]
fn test_aot_metered_simple_program_run() {
    let runtime = metered(vec![
        op(Opcode::ADD, 29, 0, 5, false, true),
        op(Opcode::ADD, 30, 0, 37, false, true),
        op(Opcode::ADD, 31, 30, 29, false, false),
    ]);
    assert_eq!(runtime.register(31), 42);
}

/// Counts down from a number, in registers that general-purpose registers hold.
fn countdown(n: u32) -> Vec<Instruction> {
    vec![
        op(Opcode::ADD, 10, 0, n, false, true),
        op(Opcode::ADD, 11, 0, 0, false, true),
        op(Opcode::ADD, 10, 10, 0xffff_ffff, false, true),
        op(Opcode::ADD, 12, 10, 0, false, true),
        op(Opcode::BNE, 10, 0, 0xffff_fff4, false, true),
        op(Opcode::ADD, 11, 11, 3, false, true),
        op(Opcode::ADD, 13, 11, 1, false, true),
    ]
}

#[test]
fn a_run_is_cut_into_shards() {
    let mut runtime =
        Runtime::new(Program::new(vec![op(Opcode::ADD, 11, 11, 3, false, true); 242], 0, 0));
    runtime.shard_size = 300;
    runtime.metered_run();
    assert_eq!(runtime.register(11), 3 * 242);
    assert_eq!(runtime.global_clk(), 242);
    assert_eq!(runtime.ended_shards, vec![200; 6]);
    assert_eq!(runtime.current_shard(), 7);
    assert_eq!(runtime.clk(), 10);
    assert_eq!(runtime.register_access_meta(11), (7, 8));
}

#[test]
fn code_that_keeps_nothing() {
    let mut runtime = Runtime::new(Program::new(countdown(60), 0, 0));
    runtime.pure_run();
    assert_eq!(runtime.register(11), 180);
    assert_eq!(runtime.register(13), 181);
    assert_eq!(runtime.pc(), 28);
    assert_eq!(runtime.register_access_meta(11), (0, 0));

    let mut runtime = Runtime::new(Program::new(simple_memory_program(), 0x1000, 0x1000));
    runtime.pure_run();
    assert_eq!(runtime.register(11), 0x65256525);
    assert_eq!(runtime.pc(), 0x1000 + 28 * 4);
}

#[test]
fn halting_leaves_the_code() {
    let mut runtime = Runtime::new(Program::new(
        vec![
            op(Opcode::ADD, 2, 0, 0, false, true),
            op(Opcode::ADD, 4, 0, 0, false, true),
            op(Opcode::SYSCALL, 2, 4, 5, false, false),
            op(Opcode::ADD, 31, 0, 1, false, true),
        ],
        0,
        0,
    ));
    runtime.metered_run();
    assert!(runtime.exited);
    assert_eq!(runtime.register(31), 0);
}

#[test]
fn every_operation_on_held_registers() {
    let values = [0u32, 1, 5, 0x7fff_ffff, 0x8000_0000, 0xffff_fffe];
    let opcodes = [
        Opcode::ADD,
        Opcode::SUB,
        Opcode::MUL,
        Opcode::AND,
        Opcode::OR,
        Opcode::XOR,
        Opcode::SLT,
        Opcode::SLTU,
        Opcode::SLL,
        Opcode::SRL,
        Opcode::SRA,
        Opcode::ROR,
        Opcode::NOR,
    ];
    for opcode in opcodes {
        for (a, b, c) in [
            (10u8, 11u8, 12u8),
            (10, 10, 11),
            (10, 11, 10),
            (10, 10, 10),
            (9, 13, 10),
            (14, 15, 14),
            (15, 14, 15),
            (9, 8, 9),
        ] {
            for x in values {
                for y in values {
                    let mut runtime = Runtime::new(Program::new(
                        vec![
                            op(Opcode::ADD, b, 0, x, false, true),
                            op(Opcode::ADD, c, 0, y, false, true),
                            op(opcode, a, b as u32, c as u32, false, false),
                        ],
                        0,
                        0,
                    ));
                    runtime.pure_run();
                    let left = if b == c { y } else { x };
                    let expected = vm::alu_compute(opcode, left, y).unwrap().0;
                    assert_eq!(runtime.register(a), expected, "{opcode:?} {a} {b} {c} {x} {y}");
                }
            }
        }
    }
}

#[test]
fn registers_have_places() {
    assert_eq!(xmm_to_gpr(4, Reg::Edi, false).1, "   pextrd edi, xmm2, 0\n");
    assert_eq!(xmm_to_gpr(33, Reg::Edi, false).1, "   pextrd edi, xmm13, 3\n");
    assert_eq!(xmm_to_gpr(10, Reg::Edi, false), (Reg::R10d, String::new()));
    assert_eq!(xmm_to_gpr(10, Reg::Edi, true), (Reg::Edi, "  mov edi, r10d\n".to_string()));
    assert_eq!(xmm_to_gpr(14, Reg::Edi, false), (Reg::Ebp, String::new()));
    assert_eq!(xmm_to_gpr(15, Reg::Esi, true), (Reg::Esi, "  mov esi, r13d\n".to_string()));
    assert_eq!(gpr_to_xmm(Reg::Edi, 5), "   pinsrd xmm2, edi, 1\n");
    assert_eq!(gpr_to_xmm(Reg::Edi, 11), "   mov r11d, edi\n");
    assert_eq!(gpr_to_xmm(Reg::R11d, 11), "");
    assert_eq!(gpr_to_xmm(Reg::Edi, 31), "   pinsrd xmm15, edi, 1\n");
    assert_eq!(gpr_to_xmm(Reg::Eax, 28), "   pinsrd xmm14, eax, 0\n");
    assert_eq!(
        sync_xmm_to_gpr(),
        "   pextrd r10d, xmm5, 0\n   pextrd r11d, xmm5, 1\n   pextrd r9d, xmm6, 0\n   \
         pextrd r8d, xmm6, 1\n   pextrd ebp, xmm7, 0\n   pextrd r13d, xmm7, 1\n"
    );
    assert_eq!(sync_gpr_to_xmm().lines().next(), Some("   pinsrd xmm5, r10d, 0"));
    assert_eq!(sync_gpr_to_xmm().lines().last(), Some("   pinsrd xmm7, r13d, 1"));
    assert_eq!(Reg::R10d.part(Width::W64), Reg::R10);
    assert_eq!(Reg::Rdi.part(Width::W8L).text(), "dil");
}

#[test]
fn numbers_are_written_in_digits() {
    assert_eq!(decimal_text(0), "0");
    assert_eq!(decimal_text(1234567890), "1234567890");
    assert_eq!(decimal_text(u64::MAX), "18446744073709551615");
    assert_eq!(hexadecimal_text(0xdeadbeef), "0xdeadbeef");
    assert_eq!(hexadecimal_text(0), "0x0");
}

fn compiler(instructions: Vec<Instruction>) -> AotCompiler {
    AotCompiler::new(
        Arc::new(Program::new(instructions, 0, 0)),
        ExecutorMode::Simple,
        1000,
        100,
        16,
        links(),
    )
}

#[test]
fn the_text_of_an_addition() {
    let compiler = compiler(vec![]);
    let add = op(Opcode::ADD, 31, 30, 29, false, false);
    assert_eq!(
        compiler.generate_alu_asm(&add, 0).unwrap(),
        "   pextrd edi, xmm15, 0\n   pextrd edx, xmm14, 1\n   add edi, edx\n   \
         pinsrd xmm15, edi, 1\n"
    );
    assert_eq!(
        AotCompiler::generate_base_alu_asm(&add).unwrap(),
        compiler.generate_instruction_asm(&add, 0).unwrap()
    );
    assert!(matches!(
        compiler.generate_alu_asm(&op(Opcode::SYSCALL, 2, 4, 5, false, false), 0),
        Err(AotError::NotSupported)
    ));
    let branch = op(Opcode::BEQ, 1, 2, 8, false, false);
    assert!(compiler.generate_branch_asm(&branch, 4).unwrap().ends_with("je asm_execute_pc_16\n"));
    assert_eq!(
        AotCompiler::set_access_register_meta(3, MemoryAccessPosition::A),
        "   mov dword ptr [rdi + 12], r14d\n   lea rdx, [r12 - 2]\n   \
         mov dword ptr [rsi + 12], edx\n"
    );
}

#[test]
fn the_text_of_branches_and_jumps() {
    let compiler = compiler(vec![]);
    assert_eq!(
        compiler.generate_branch_asm(&op(Opcode::BEQ, 29, 30, 8, false, true), 8).unwrap(),
        "   pextrd edi, xmm14, 1\n   pextrd esi, xmm15, 0\n   cmp edi, esi\n   \
         je asm_execute_pc_20\n"
    );
    assert_eq!(
        compiler.generate_jump_asm(&op(Opcode::Jumpi, 13, 8, 0, false, true), 0).unwrap(),
        "   mov edi, 8\n   mov r8d, edi\n   jmp asm_execute_pc_8\n"
    );
    // A target in the register that is to hold the return address is read first.
    assert_eq!(
        compiler.generate_jump_asm(&op(Opcode::Jump, 31, 31, 0, false, false), 0).unwrap(),
        "   pextrd esi, xmm15, 1\n   mov edi, 8\n   pinsrd xmm15, edi, 1\n   \
         lea rdx, [rip + map_pc_base]\n   movsxd rdi, [rdx + rsi]\n   add rdi, rdx\n   \
         jmp rdi\n"
    );
}

#[test]
fn the_text_of_arithmetic() {
    let text = |i: Instruction| compiler(vec![]).generate_alu_asm(&i, 0).unwrap();
    let shift = op(Opcode::SLL, 31, 40, 16, true, true);
    assert_eq!(
        AotCompiler::generate_shift_asm(&shift).unwrap(),
        "   mov edi, 40\n   shl edi, 16\n   pinsrd xmm15, edi, 1\n"
    );
    assert_eq!(
        AotCompiler::generate_base_alu_asm(&op(Opcode::SUB, 10, 11, 10, false, false)).unwrap(),
        "  mov edx, r10d\n  mov r10d, r11d\n   sub r10d, edx\n"
    );
    assert_eq!(
        AotCompiler::generate_div_mod_asm(&op(Opcode::MODU, 31, 29, 30, false, false)).unwrap(),
        "   pextrd eax, xmm14, 1\n   pextrd edi, xmm15, 0\n   mov edx, 0\n   div edi\n   \
         pinsrd xmm15, edx, 1\n"
    );
    assert_eq!(
        AotCompiler::generate_slt_asm(&op(Opcode::SLT, 31, 29, 1000, false, true)).unwrap(),
        "   pextrd esi, xmm14, 1\n   cmp esi, 1000\n   setl al\n   movzx eax, al\n   \
         pinsrd xmm15, eax, 1\n"
    );
    assert_eq!(
        AotCompiler::generate_nor_asm(&op(Opcode::NOR, 31, 29, 30, false, false)).unwrap(),
        "   pextrd edi, xmm14, 1\n   pextrd edx, xmm15, 0\n   or edi, edx\n   not edi\n   \
         pinsrd xmm15, edi, 1\n"
    );
    assert_eq!(
        text(op(Opcode::CLO, 31, 29, 10, false, true)),
        "   pextrd edi, xmm14, 1\n   not edi\n   lzcnt edi, edi\n   pinsrd xmm15, edi, 1\n"
    );
    assert_eq!(
        text(op(Opcode::CLZ, 31, 29, 10, false, true)),
        "   pextrd edi, xmm14, 1\n   lzcnt edi, edi\n   pinsrd xmm15, edi, 1\n"
    );
    assert_eq!(
        text(op(Opcode::NOR, 10, 11, 10, false, false)),
        "  mov edx, r10d\n  mov r10d, r11d\n   or r10d, edx\n   not r10d\n"
    );
}

#[test]
fn the_text_of_the_entry() {
    let text = compiler(vec![]).create_pure_asm().unwrap();
    assert!(text.contains("    call rax\n    pinsrq  xmm0, rax, 1\n"), "{text}");
    assert!(text.contains("   pinsrq xmm1, rdi, 0\n"), "{text}");
}

#[test]
fn the_text_of_masks() {
    let load = op(Opcode::LWL, 31, 29, 4, false, true);
    let text = compiler(vec![]).generate_instruction_asm(&load, 0).unwrap();
    for mask in ["0x000000FF", "0x0000FFFF", "0x00FFFFFF"] {
        assert!(text.contains(&format!("   and edx, {mask}\n")), "{text}");
    }
    assert!(text.contains("   and esi, 0xfffffffc\n"), "{text}");
    assert_eq!(mask_text(0xabcd), "0x0000ABCD");
}

#[test]
fn a_jump_to_its_own_link_register() {
    for r in [9u8, 14, 31] {
        let runtime = metered(vec![
            op(Opcode::ADD, r, 0, 16, false, true),
            op(Opcode::Jump, r, r as u32, 0, false, false),
            op(Opcode::ADD, 28, 0, 1, false, true),
            op(Opcode::ADD, 27, 0, 1, false, true),
            op(Opcode::ADD, 26, 0, 1, false, true),
        ]);
        assert_eq!(runtime.register(r), 12);
        let reached: Vec<u32> = (26..29).map(|k| runtime.register(k)).collect();
        assert_eq!(reached, [1, 0, 1]);
    }
}

#[test]
fn what_cannot_be_compiled_is_told() {
    assert!(compiler(vec![op(Opcode::ADD, 31, 30, 29, false, false)]).can_compile());
    assert!(!compiler(vec![op(Opcode::ADD, 35, 30, 29, false, false)]).can_compile());
    assert!(!compiler(vec![op(Opcode::BEQ, 1, 2, 8, false, false)]).can_compile());
    assert!(is_compilable(&op(Opcode::SLL, 1, 2, 3, true, true)));
    assert!(is_compilable(&op(Opcode::MULT, 40, 2, 3, false, false)));
    assert!(is_compilable(&op(Opcode::DIV, 40, 2, 3, false, false)));
    assert!(!is_compilable(&op(Opcode::MOD, 40, 2, 3, false, false)));
}

#[test]
fn only_a_left_shift_has_two_immediates() {
    let shift = op(Opcode::SRL, 1, 2, 3, true, true);
    let compiler = compiler(vec![shift]);
    assert!(matches!(AotCompiler::generate_shift_asm(&shift), Err(AotError::NotSupported)));
    assert!(matches!(compiler.generate_alu_asm(&shift, 0), Err(AotError::NotSupported)));
    assert!(matches!(compiler.generate_instruction_asm(&shift, 0), Err(AotError::NotSupported)));
    assert!(matches!(compiler.create_pure_asm(), Err(AotError::NotSupported)));
    assert!(matches!(compiler.create_metered_asm(), Err(AotError::NotSupported)));
}

fn shard_limits() -> ShardLimits {
    ShardLimits {
        max_cycles: None,
        max_syscall_cycles: 10,
        shard_size: 1000,
        shape_check_frequency: 4,
        lde_size_check: false,
        lde_size_threshold: 0,
        maximal_shapes: None,
        costs: AirCosts::filled(1),
        program_size: 1,
    }
}

fn counts(adds: u64) -> LocalExecutionCounts {
    let mut event_counts = vec![0; NUM_OPCODES];
    event_counts[Opcode::ADD.index() as usize] = adds;
    LocalExecutionCounts { event_counts, local_mem: 0, syscalls_sent: 0 }
}

fn shard_ends(limits: &ShardLimits, clk: u32, global_clk: u64, adds: u64) -> bool {
    let mut state = ExecutionState::new(0, 4);
    state.clk = clk;
    state.global_clk = global_clk;
    let mut kept = None;
    let r =
        inc_shard_if_need(&mut state, limits, &counts(adds), &PrecompileEvents::default(), &mut kept);
    let ended = r.unwrap();
    let shapeless = ended && clk < 990 && limits.maximal_shapes.is_some();
    assert_eq!(kept.map(|counts: AirCounts| counts.get(MipsAirId::Add)), shapeless.then_some(adds));
    if ended {
        assert_eq!((state.clk, state.current_shard, state.records_clk.clone()), (0, 2, vec![clk]));
    } else {
        assert_eq!((state.clk, state.current_shard, state.records_clk.len()), (clk, 1, 0));
    }
    ended
}

#[test]
fn a_shard_ends_at_its_limits() {
    let mut limits = shard_limits();
    assert!(!shard_ends(&limits, 989, 3, 0));
    assert!(shard_ends(&limits, 990, 3, 0));

    // The estimated size is only looked at every fourth instruction.
    limits.lde_size_check = true;
    assert!(!shard_ends(&limits, 100, 3, 0));
    assert!(shard_ends(&limits, 100, 4, 0));
    limits.lde_size_threshold = u64::MAX;
    assert!(!shard_ends(&limits, 100, 4, 0));

    // A shape must leave room for 128 more events of every chip in use.
    limits.lde_size_check = false;
    let mut shape = AirCounts::new();
    shape.set(MipsAirId::Cpu, 20);
    shape.set(MipsAirId::Add, 8);
    limits.maximal_shapes = Some(vec![shape]);
    assert!(!shard_ends(&limits, 100, 4, 128));
    assert!(shard_ends(&limits, 100, 4, 129));
    assert!(shard_ends(&limits, 100, 4, 257));
    assert!(!shard_ends(&limits, 100, 3, 257));
    limits.maximal_shapes = Some(vec![]);
    assert!(shard_ends(&limits, 100, 4, 0));

    limits.max_cycles = Some(4);
    let mut state = ExecutionState::new(0, 4);
    state.global_clk = 4;
    assert_eq!(
        inc_shard_if_need(
            &mut state,
            &limits,
            &counts(0),
            &PrecompileEvents::default(),
            &mut None
        ),
        Err(ExecutionError::ExceededCycleLimit(4))
    );
}

#[test]
fn memory_accesses_are_noted() {
    let runtime = metered(vec![
        op(Opcode::ADD, 29, 0, 0x1000, false, true),
        op(Opcode::SW, 29, 29, 4, false, true),
        op(Opcode::LBU, 28, 29, 6, false, true),
        op(Opcode::LW, 27, 29, 8, false, true),
    ]);
    assert_eq!(runtime.memory_access_meta(0x1004), (1, 10));
    assert_eq!(runtime.memory_access_meta(0x1008), (1, 15));
    assert_eq!(runtime.memory_access_meta(0x100c), (0, 0));
    assert_eq!(runtime.register_access_meta(29), (1, 17));
    assert_eq!(runtime.register_access_meta(27), (1, 18));
    assert_eq!(runtime.get(EXECUTOR + 40, 4), 2, "each word is counted once");
    assert_eq!(runtime.events(Opcode::LW), 1);
    assert_eq!(runtime.events(Opcode::SW), 1);
}

#[test]
fn a_call_keeps_the_other_registers() {
    let mut program: Vec<Instruction> =
        (1..32).map(|r| op(Opcode::ADD, r as u8, 0, 0x0102_0300 + r, false, true)).collect();
    program.push(op(Opcode::MULT, 32, 5, 6, false, false));
    program.push(op(Opcode::WSBH, 9, 12, 0, false, true));
    let runtime = metered(program);
    for r in (1..32).filter(|r| *r != 9) {
        assert_eq!(runtime.register(r), 0x0102_0300 + r as u32, "register {r}");
    }
    assert_eq!(runtime.register(9), 0x0201_0c03);
    let product = 0x0102_0305u64 * 0x0102_0306;
    assert_eq!(runtime.register(32), product as u32);
    assert_eq!(runtime.register(33), (product >> 32) as u32);
}
