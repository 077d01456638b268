//! Host code: the x86-64 registers, the instructions that compiled programs are made of, and
//! their text in Intel syntax.
use vstd::prelude::*;

verus! {

/// A 64-bit general-purpose register of the host.
#[derive(Debug, Clone, Copy, PartialEq, Eq, Structural)]
pub enum Gpr {
    Rax,
    Rbx,
    Rcx,
    Rdx,
    Rsi,
    Rdi,
    Rbp,
    R8,
    R9,
    R10,
    R11,
    R12,
    R13,
    R14,
    R15,
}

/// How much of a general-purpose register a name stands for.
#[derive(Debug, Clone, Copy, PartialEq, Eq, Structural)]
pub enum Width {
    /// All of it.
    W64,
    /// The low half.
    W32,
    /// The low 16 bits.
    W16,
    /// The low byte.
    W8L,
}

/// A register name of the host: a general-purpose register or its low part.
#[derive(Debug, Clone, Copy, PartialEq, Eq, Structural)]
pub enum Reg {
    Rax, Rbx, Rcx, Rdx, Rsi, Rdi, Rbp, R8, R9, R10, R11, R12, R13, R14, R15,
    Eax, Ebx, Ecx, Edx, Esi, Edi, Ebp, R8d, R9d, R10d, R11d, R12d, R13d, R14d, R15d,
    Ax, Bx, Cx, Dx, Si, Di, Bp, R8w, R9w, R10w, R11w, R12w, R13w, R14w, R15w,
    Al, Bl, Cl, Dl, Sil, Dil, Bpl, R8b, R9b, R10b, R11b, R12b, R13b, R14b, R15b,
}

impl Reg {
    /// The register that the name is a part of.
    pub open spec fn gpr(self) -> Gpr {
        match self {
            Reg::Rax | Reg::Eax | Reg::Ax | Reg::Al => Gpr::Rax,
            Reg::Rbx | Reg::Ebx | Reg::Bx | Reg::Bl => Gpr::Rbx,
            Reg::Rcx | Reg::Ecx | Reg::Cx | Reg::Cl => Gpr::Rcx,
            Reg::Rdx | Reg::Edx | Reg::Dx | Reg::Dl => Gpr::Rdx,
            Reg::Rsi | Reg::Esi | Reg::Si | Reg::Sil => Gpr::Rsi,
            Reg::Rdi | Reg::Edi | Reg::Di | Reg::Dil => Gpr::Rdi,
            Reg::Rbp | Reg::Ebp | Reg::Bp | Reg::Bpl => Gpr::Rbp,
            Reg::R8 | Reg::R8d | Reg::R8w | Reg::R8b => Gpr::R8,
            Reg::R9 | Reg::R9d | Reg::R9w | Reg::R9b => Gpr::R9,
            Reg::R10 | Reg::R10d | Reg::R10w | Reg::R10b => Gpr::R10,
            Reg::R11 | Reg::R11d | Reg::R11w | Reg::R11b => Gpr::R11,
            Reg::R12 | Reg::R12d | Reg::R12w | Reg::R12b => Gpr::R12,
            Reg::R13 | Reg::R13d | Reg::R13w | Reg::R13b => Gpr::R13,
            Reg::R14 | Reg::R14d | Reg::R14w | Reg::R14b => Gpr::R14,
            Reg::R15 | Reg::R15d | Reg::R15w | Reg::R15b => Gpr::R15,
        }
    }

    /// How much of the register the name stands for.
    pub open spec fn width(self) -> Width {
        match self {
            Reg::Eax | Reg::Ebx | Reg::Ecx | Reg::Edx | Reg::Esi | Reg::Edi | Reg::Ebp | Reg::R8d | Reg::R9d | Reg::R10d | Reg::R11d | Reg::R12d | Reg::R13d | Reg::R14d | Reg::R15d => Width::W32,
            Reg::Ax | Reg::Bx | Reg::Cx | Reg::Dx | Reg::Si | Reg::Di | Reg::Bp | Reg::R8w | Reg::R9w | Reg::R10w | Reg::R11w | Reg::R12w | Reg::R13w | Reg::R14w | Reg::R15w => Width::W16,
            Reg::Al | Reg::Bl | Reg::Cl | Reg::Dl | Reg::Sil | Reg::Dil | Reg::Bpl | Reg::R8b | Reg::R9b | Reg::R10b | Reg::R11b | Reg::R12b | Reg::R13b | Reg::R14b | Reg::R15b => Width::W8L,
            _ => Width::W64,
        }
    }

    /// The name of a part of a register.
    pub open spec fn of(gpr: Gpr, width: Width) -> Reg {
        match (gpr, width) {
            (Gpr::Rax, Width::W64) => Reg::Rax,
            (Gpr::Rax, Width::W32) => Reg::Eax,
            (Gpr::Rax, Width::W16) => Reg::Ax,
            (Gpr::Rax, Width::W8L) => Reg::Al,
            (Gpr::Rbx, Width::W64) => Reg::Rbx,
            (Gpr::Rbx, Width::W32) => Reg::Ebx,
            (Gpr::Rbx, Width::W16) => Reg::Bx,
            (Gpr::Rbx, Width::W8L) => Reg::Bl,
            (Gpr::Rcx, Width::W64) => Reg::Rcx,
            (Gpr::Rcx, Width::W32) => Reg::Ecx,
            (Gpr::Rcx, Width::W16) => Reg::Cx,
            (Gpr::Rcx, Width::W8L) => Reg::Cl,
            (Gpr::Rdx, Width::W64) => Reg::Rdx,
            (Gpr::Rdx, Width::W32) => Reg::Edx,
            (Gpr::Rdx, Width::W16) => Reg::Dx,
            (Gpr::Rdx, Width::W8L) => Reg::Dl,
            (Gpr::Rsi, Width::W64) => Reg::Rsi,
            (Gpr::Rsi, Width::W32) => Reg::Esi,
            (Gpr::Rsi, Width::W16) => Reg::Si,
            (Gpr::Rsi, Width::W8L) => Reg::Sil,
            (Gpr::Rdi, Width::W64) => Reg::Rdi,
            (Gpr::Rdi, Width::W32) => Reg::Edi,
            (Gpr::Rdi, Width::W16) => Reg::Di,
            (Gpr::Rdi, Width::W8L) => Reg::Dil,
            (Gpr::Rbp, Width::W64) => Reg::Rbp,
            (Gpr::Rbp, Width::W32) => Reg::Ebp,
            (Gpr::Rbp, Width::W16) => Reg::Bp,
            (Gpr::Rbp, Width::W8L) => Reg::Bpl,
            (Gpr::R8, Width::W64) => Reg::R8,
            (Gpr::R8, Width::W32) => Reg::R8d,
            (Gpr::R8, Width::W16) => Reg::R8w,
            (Gpr::R8, Width::W8L) => Reg::R8b,
            (Gpr::R9, Width::W64) => Reg::R9,
            (Gpr::R9, Width::W32) => Reg::R9d,
            (Gpr::R9, Width::W16) => Reg::R9w,
            (Gpr::R9, Width::W8L) => Reg::R9b,
            (Gpr::R10, Width::W64) => Reg::R10,
            (Gpr::R10, Width::W32) => Reg::R10d,
            (Gpr::R10, Width::W16) => Reg::R10w,
            (Gpr::R10, Width::W8L) => Reg::R10b,
            (Gpr::R11, Width::W64) => Reg::R11,
            (Gpr::R11, Width::W32) => Reg::R11d,
            (Gpr::R11, Width::W16) => Reg::R11w,
            (Gpr::R11, Width::W8L) => Reg::R11b,
            (Gpr::R12, Width::W64) => Reg::R12,
            (Gpr::R12, Width::W32) => Reg::R12d,
            (Gpr::R12, Width::W16) => Reg::R12w,
            (Gpr::R12, Width::W8L) => Reg::R12b,
            (Gpr::R13, Width::W64) => Reg::R13,
            (Gpr::R13, Width::W32) => Reg::R13d,
            (Gpr::R13, Width::W16) => Reg::R13w,
            (Gpr::R13, Width::W8L) => Reg::R13b,
            (Gpr::R14, Width::W64) => Reg::R14,
            (Gpr::R14, Width::W32) => Reg::R14d,
            (Gpr::R14, Width::W16) => Reg::R14w,
            (Gpr::R14, Width::W8L) => Reg::R14b,
            (Gpr::R15, Width::W64) => Reg::R15,
            (Gpr::R15, Width::W32) => Reg::R15d,
            (Gpr::R15, Width::W16) => Reg::R15w,
            (Gpr::R15, Width::W8L) => Reg::R15b,
        }
    }

    /// The text of the name.
    pub open spec fn name(self) -> Seq<char> {
        match self {
            Reg::Rax => "rax"@,
            Reg::Rbx => "rbx"@,
            Reg::Rcx => "rcx"@,
            Reg::Rdx => "rdx"@,
            Reg::Rsi => "rsi"@,
            Reg::Rdi => "rdi"@,
            Reg::Rbp => "rbp"@,
            Reg::R8 => "r8"@,
            Reg::R9 => "r9"@,
            Reg::R10 => "r10"@,
            Reg::R11 => "r11"@,
            Reg::R12 => "r12"@,
            Reg::R13 => "r13"@,
            Reg::R14 => "r14"@,
            Reg::R15 => "r15"@,
            Reg::Eax => "eax"@,
            Reg::Ebx => "ebx"@,
            Reg::Ecx => "ecx"@,
            Reg::Edx => "edx"@,
            Reg::Esi => "esi"@,
            Reg::Edi => "edi"@,
            Reg::Ebp => "ebp"@,
            Reg::R8d => "r8d"@,
            Reg::R9d => "r9d"@,
            Reg::R10d => "r10d"@,
            Reg::R11d => "r11d"@,
            Reg::R12d => "r12d"@,
            Reg::R13d => "r13d"@,
            Reg::R14d => "r14d"@,
            Reg::R15d => "r15d"@,
            Reg::Ax => "ax"@,
            Reg::Bx => "bx"@,
            Reg::Cx => "cx"@,
            Reg::Dx => "dx"@,
            Reg::Si => "si"@,
            Reg::Di => "di"@,
            Reg::Bp => "bp"@,
            Reg::R8w => "r8w"@,
            Reg::R9w => "r9w"@,
            Reg::R10w => "r10w"@,
            Reg::R11w => "r11w"@,
            Reg::R12w => "r12w"@,
            Reg::R13w => "r13w"@,
            Reg::R14w => "r14w"@,
            Reg::R15w => "r15w"@,
            Reg::Al => "al"@,
            Reg::Bl => "bl"@,
            Reg::Cl => "cl"@,
            Reg::Dl => "dl"@,
            Reg::Sil => "sil"@,
            Reg::Dil => "dil"@,
            Reg::Bpl => "bpl"@,
            Reg::R8b => "r8b"@,
            Reg::R9b => "r9b"@,
            Reg::R10b => "r10b"@,
            Reg::R11b => "r11b"@,
            Reg::R12b => "r12b"@,
            Reg::R13b => "r13b"@,
            Reg::R14b => "r14b"@,
            Reg::R15b => "r15b"@,
        }
    }

    /// The text of the name.
    pub fn text(self) -> (r: &'static str)
        ensures
            r@ == self.name(),
    {
        match self {
            Reg::Rax => "rax",
            Reg::Rbx => "rbx",
            Reg::Rcx => "rcx",
            Reg::Rdx => "rdx",
            Reg::Rsi => "rsi",
            Reg::Rdi => "rdi",
            Reg::Rbp => "rbp",
            Reg::R8 => "r8",
            Reg::R9 => "r9",
            Reg::R10 => "r10",
            Reg::R11 => "r11",
            Reg::R12 => "r12",
            Reg::R13 => "r13",
            Reg::R14 => "r14",
            Reg::R15 => "r15",
            Reg::Eax => "eax",
            Reg::Ebx => "ebx",
            Reg::Ecx => "ecx",
            Reg::Edx => "edx",
            Reg::Esi => "esi",
            Reg::Edi => "edi",
            Reg::Ebp => "ebp",
            Reg::R8d => "r8d",
            Reg::R9d => "r9d",
            Reg::R10d => "r10d",
            Reg::R11d => "r11d",
            Reg::R12d => "r12d",
            Reg::R13d => "r13d",
            Reg::R14d => "r14d",
            Reg::R15d => "r15d",
            Reg::Ax => "ax",
            Reg::Bx => "bx",
            Reg::Cx => "cx",
            Reg::Dx => "dx",
            Reg::Si => "si",
            Reg::Di => "di",
            Reg::Bp => "bp",
            Reg::R8w => "r8w",
            Reg::R9w => "r9w",
            Reg::R10w => "r10w",
            Reg::R11w => "r11w",
            Reg::R12w => "r12w",
            Reg::R13w => "r13w",
            Reg::R14w => "r14w",
            Reg::R15w => "r15w",
            Reg::Al => "al",
            Reg::Bl => "bl",
            Reg::Cl => "cl",
            Reg::Dl => "dl",
            Reg::Sil => "sil",
            Reg::Dil => "dil",
            Reg::Bpl => "bpl",
            Reg::R8b => "r8b",
            Reg::R9b => "r9b",
            Reg::R10b => "r10b",
            Reg::R11b => "r11b",
            Reg::R12b => "r12b",
            Reg::R13b => "r13b",
            Reg::R14b => "r14b",
            Reg::R15b => "r15b",
        }
    }

    /// The register that the name is a part of.
    pub fn base(self) -> (r: Gpr)
        ensures
            r == self.gpr(),
    {
        match self {
            Reg::Rax | Reg::Eax | Reg::Ax | Reg::Al => Gpr::Rax,
            Reg::Rbx | Reg::Ebx | Reg::Bx | Reg::Bl => Gpr::Rbx,
            Reg::Rcx | Reg::Ecx | Reg::Cx | Reg::Cl => Gpr::Rcx,
            Reg::Rdx | Reg::Edx | Reg::Dx | Reg::Dl => Gpr::Rdx,
            Reg::Rsi | Reg::Esi | Reg::Si | Reg::Sil => Gpr::Rsi,
            Reg::Rdi | Reg::Edi | Reg::Di | Reg::Dil => Gpr::Rdi,
            Reg::Rbp | Reg::Ebp | Reg::Bp | Reg::Bpl => Gpr::Rbp,
            Reg::R8 | Reg::R8d | Reg::R8w | Reg::R8b => Gpr::R8,
            Reg::R9 | Reg::R9d | Reg::R9w | Reg::R9b => Gpr::R9,
            Reg::R10 | Reg::R10d | Reg::R10w | Reg::R10b => Gpr::R10,
            Reg::R11 | Reg::R11d | Reg::R11w | Reg::R11b => Gpr::R11,
            Reg::R12 | Reg::R12d | Reg::R12w | Reg::R12b => Gpr::R12,
            Reg::R13 | Reg::R13d | Reg::R13w | Reg::R13b => Gpr::R13,
            Reg::R14 | Reg::R14d | Reg::R14w | Reg::R14b => Gpr::R14,
            Reg::R15 | Reg::R15d | Reg::R15w | Reg::R15b => Gpr::R15,
        }
    }

    /// The name of another part of the same register.
    pub fn part(self, width: Width) -> (r: Reg)
        ensures
            r == Reg::of(self.gpr(), width),
    {
        match (self.base(), width) {
            (Gpr::Rax, Width::W64) => Reg::Rax,
            (Gpr::Rax, Width::W32) => Reg::Eax,
            (Gpr::Rax, Width::W16) => Reg::Ax,
            (Gpr::Rax, Width::W8L) => Reg::Al,
            (Gpr::Rbx, Width::W64) => Reg::Rbx,
            (Gpr::Rbx, Width::W32) => Reg::Ebx,
            (Gpr::Rbx, Width::W16) => Reg::Bx,
            (Gpr::Rbx, Width::W8L) => Reg::Bl,
            (Gpr::Rcx, Width::W64) => Reg::Rcx,
            (Gpr::Rcx, Width::W32) => Reg::Ecx,
            (Gpr::Rcx, Width::W16) => Reg::Cx,
            (Gpr::Rcx, Width::W8L) => Reg::Cl,
            (Gpr::Rdx, Width::W64) => Reg::Rdx,
            (Gpr::Rdx, Width::W32) => Reg::Edx,
            (Gpr::Rdx, Width::W16) => Reg::Dx,
            (Gpr::Rdx, Width::W8L) => Reg::Dl,
            (Gpr::Rsi, Width::W64) => Reg::Rsi,
            (Gpr::Rsi, Width::W32) => Reg::Esi,
            (Gpr::Rsi, Width::W16) => Reg::Si,
            (Gpr::Rsi, Width::W8L) => Reg::Sil,
            (Gpr::Rdi, Width::W64) => Reg::Rdi,
            (Gpr::Rdi, Width::W32) => Reg::Edi,
            (Gpr::Rdi, Width::W16) => Reg::Di,
            (Gpr::Rdi, Width::W8L) => Reg::Dil,
            (Gpr::Rbp, Width::W64) => Reg::Rbp,
            (Gpr::Rbp, Width::W32) => Reg::Ebp,
            (Gpr::Rbp, Width::W16) => Reg::Bp,
            (Gpr::Rbp, Width::W8L) => Reg::Bpl,
            (Gpr::R8, Width::W64) => Reg::R8,
            (Gpr::R8, Width::W32) => Reg::R8d,
            (Gpr::R8, Width::W16) => Reg::R8w,
            (Gpr::R8, Width::W8L) => Reg::R8b,
            (Gpr::R9, Width::W64) => Reg::R9,
            (Gpr::R9, Width::W32) => Reg::R9d,
            (Gpr::R9, Width::W16) => Reg::R9w,
            (Gpr::R9, Width::W8L) => Reg::R9b,
            (Gpr::R10, Width::W64) => Reg::R10,
            (Gpr::R10, Width::W32) => Reg::R10d,
            (Gpr::R10, Width::W16) => Reg::R10w,
            (Gpr::R10, Width::W8L) => Reg::R10b,
            (Gpr::R11, Width::W64) => Reg::R11,
            (Gpr::R11, Width::W32) => Reg::R11d,
            (Gpr::R11, Width::W16) => Reg::R11w,
            (Gpr::R11, Width::W8L) => Reg::R11b,
            (Gpr::R12, Width::W64) => Reg::R12,
            (Gpr::R12, Width::W32) => Reg::R12d,
            (Gpr::R12, Width::W16) => Reg::R12w,
            (Gpr::R12, Width::W8L) => Reg::R12b,
            (Gpr::R13, Width::W64) => Reg::R13,
            (Gpr::R13, Width::W32) => Reg::R13d,
            (Gpr::R13, Width::W16) => Reg::R13w,
            (Gpr::R13, Width::W8L) => Reg::R13b,
            (Gpr::R14, Width::W64) => Reg::R14,
            (Gpr::R14, Width::W32) => Reg::R14d,
            (Gpr::R14, Width::W16) => Reg::R14w,
            (Gpr::R14, Width::W8L) => Reg::R14b,
            (Gpr::R15, Width::W64) => Reg::R15,
            (Gpr::R15, Width::W32) => Reg::R15d,
            (Gpr::R15, Width::W16) => Reg::R15w,
            (Gpr::R15, Width::W8L) => Reg::R15b,
        }
    }
}

/// A name is determined by its register and width.
pub proof fn names_are_parts(reg: Reg, gpr: Gpr, width: Width)
    ensures
        Reg::of(reg.gpr(), reg.width()) == reg,
        Reg::of(gpr, width).gpr() == gpr,
        Reg::of(gpr, width).width() == width,
{
}

/// A mnemonic.
#[derive(Debug, Clone, Copy, PartialEq, Eq, Structural)]
pub enum Op {
    Add, Sub, And, Or, Xor, Imul, Mul, Div, Idiv, Not, Inc, Shl, Shr, Sar, Ror, Shlx, Shrx, Sarx, Lzcnt, Cdq, Cmp, Test, Setl, Setb, Mov, Movzx, Movsx, Movsxd, Movq, Lea, Pextrd, Pinsrd, Pextrq, Pinsrq, PinsrqSpaced, Push, Pop, Call, Ret, Jmp, Je, Jne, Js, Jle, Jg, Jns, Jae, Jnz,
}

impl Op {
    /// The text of the mnemonic.
    pub open spec fn name(self) -> Seq<char> {
        match self {
            Op::Add => "add"@,
            Op::Sub => "sub"@,
            Op::And => "and"@,
            Op::Or => "or"@,
            Op::Xor => "xor"@,
            Op::Imul => "imul"@,
            Op::Mul => "mul"@,
            Op::Div => "div"@,
            Op::Idiv => "idiv"@,
            Op::Not => "not"@,
            Op::Inc => "inc"@,
            Op::Shl => "shl"@,
            Op::Shr => "shr"@,
            Op::Sar => "sar"@,
            Op::Ror => "ror"@,
            Op::Shlx => "shlx"@,
            Op::Shrx => "shrx"@,
            Op::Sarx => "sarx"@,
            Op::Lzcnt => "lzcnt"@,
            Op::Cdq => "cdq"@,
            Op::Cmp => "cmp"@,
            Op::Test => "test"@,
            Op::Setl => "setl"@,
            Op::Setb => "setb"@,
            Op::Mov => "mov"@,
            Op::Movzx => "movzx"@,
            Op::Movsx => "movsx"@,
            Op::Movsxd => "movsxd"@,
            Op::Movq => "movq"@,
            Op::Lea => "lea"@,
            Op::Pextrd => "pextrd"@,
            Op::Pinsrd => "pinsrd"@,
            Op::Pextrq => "pextrq"@,
            Op::Pinsrq => "pinsrq"@,
            Op::PinsrqSpaced => "pinsrq "@,
            Op::Push => "push"@,
            Op::Pop => "pop"@,
            Op::Call => "call"@,
            Op::Ret => "ret"@,
            Op::Jmp => "jmp"@,
            Op::Je => "je"@,
            Op::Jne => "jne"@,
            Op::Js => "js"@,
            Op::Jle => "jle"@,
            Op::Jg => "jg"@,
            Op::Jns => "jns"@,
            Op::Jae => "jae"@,
            Op::Jnz => "jnz"@,
        }
    }

    /// The text of the mnemonic.
    pub fn text(self) -> (r: &'static str)
        ensures
            r@ == self.name(),
    {
        match self {
            Op::Add => "add",
            Op::Sub => "sub",
            Op::And => "and",
            Op::Or => "or",
            Op::Xor => "xor",
            Op::Imul => "imul",
            Op::Mul => "mul",
            Op::Div => "div",
            Op::Idiv => "idiv",
            Op::Not => "not",
            Op::Inc => "inc",
            Op::Shl => "shl",
            Op::Shr => "shr",
            Op::Sar => "sar",
            Op::Ror => "ror",
            Op::Shlx => "shlx",
            Op::Shrx => "shrx",
            Op::Sarx => "sarx",
            Op::Lzcnt => "lzcnt",
            Op::Cdq => "cdq",
            Op::Cmp => "cmp",
            Op::Test => "test",
            Op::Setl => "setl",
            Op::Setb => "setb",
            Op::Mov => "mov",
            Op::Movzx => "movzx",
            Op::Movsx => "movsx",
            Op::Movsxd => "movsxd",
            Op::Movq => "movq",
            Op::Lea => "lea",
            Op::Pextrd => "pextrd",
            Op::Pinsrd => "pinsrd",
            Op::Pextrq => "pextrq",
            Op::Pinsrq => "pinsrq",
            Op::PinsrqSpaced => "pinsrq ",
            Op::Push => "push",
            Op::Pop => "pop",
            Op::Call => "call",
            Op::Ret => "ret",
            Op::Jmp => "jmp",
            Op::Je => "je",
            Op::Jne => "jne",
            Op::Js => "js",
            Op::Jle => "jle",
            Op::Jg => "jg",
            Op::Jns => "jns",
            Op::Jae => "jae",
            Op::Jnz => "jnz",
        }
    }
}

/// A place inside the code of one instruction.
#[derive(Debug, Clone, Copy, PartialEq, Eq, Structural)]
pub enum Spot {
    LwrCase1,
    LwrCase2,
    LwrCase3,
    LwrEnd,
    LwlCase0,
    LwlCase1,
    LwlCase2,
    LwlCase3,
    LwlEnd,
    SwrCase0,
    SwrCase1,
    SwrCase2,
    SwrCase3,
    SwrEnd,
    SwlCase0,
    SwlCase1,
    SwlCase2,
    SwlCase3,
    SwlEnd,
    LocalMemoryEnd,
}

impl Spot {
    /// The text that tells the place apart.
    pub open spec fn name(self) -> Seq<char> {
        match self {
            Spot::LwrCase1 => "lwr_case1"@,
            Spot::LwrCase2 => "lwr_case2"@,
            Spot::LwrCase3 => "lwr_case3"@,
            Spot::LwrEnd => "lwr_end"@,
            Spot::LwlCase0 => "lwl_case0"@,
            Spot::LwlCase1 => "lwl_case1"@,
            Spot::LwlCase2 => "lwl_case2"@,
            Spot::LwlCase3 => "lwl_case3"@,
            Spot::LwlEnd => "lwl_end"@,
            Spot::SwrCase0 => "swr_case0"@,
            Spot::SwrCase1 => "swr_case1"@,
            Spot::SwrCase2 => "swr_case2"@,
            Spot::SwrCase3 => "swr_case3"@,
            Spot::SwrEnd => "swr_end"@,
            Spot::SwlCase0 => "swl_case0"@,
            Spot::SwlCase1 => "swl_case1"@,
            Spot::SwlCase2 => "swl_case2"@,
            Spot::SwlCase3 => "swl_case3"@,
            Spot::SwlEnd => "swl_end"@,
            Spot::LocalMemoryEnd => "local_memory_end"@,
        }
    }

    /// The text that tells the place apart.
    pub fn text(self) -> (r: &'static str)
        ensures
            r@ == self.name(),
    {
        match self {
            Spot::LwrCase1 => "lwr_case1",
            Spot::LwrCase2 => "lwr_case2",
            Spot::LwrCase3 => "lwr_case3",
            Spot::LwrEnd => "lwr_end",
            Spot::LwlCase0 => "lwl_case0",
            Spot::LwlCase1 => "lwl_case1",
            Spot::LwlCase2 => "lwl_case2",
            Spot::LwlCase3 => "lwl_case3",
            Spot::LwlEnd => "lwl_end",
            Spot::SwrCase0 => "swr_case0",
            Spot::SwrCase1 => "swr_case1",
            Spot::SwrCase2 => "swr_case2",
            Spot::SwrCase3 => "swr_case3",
            Spot::SwrEnd => "swr_end",
            Spot::SwlCase0 => "swl_case0",
            Spot::SwlCase1 => "swl_case1",
            Spot::SwlCase2 => "swl_case2",
            Spot::SwlCase3 => "swl_case3",
            Spot::SwlEnd => "swl_end",
            Spot::LocalMemoryEnd => "local_memory_end",
        }
    }
}
/// A label.
#[derive(Debug, Clone, Copy, PartialEq, Eq, Structural)]
pub enum Label {
    /// The entry point.
    Run,
    /// The exit.
    RunEnd,
    /// The table of the code addresses of the guest instructions.
    PcTable,
    /// The code of the guest instruction at an address.
    Pc(u32),
    /// Where the counters of the instruction at an address are advanced.
    Counters(u32),
    /// The end of the syscall at an address.
    EndSyscall(u32),
    /// A place inside the code of the guest instruction at an address.
    Within(u32, Spot),
}

/// The width that a memory operand is marked with.
#[derive(Debug, Clone, Copy, PartialEq, Eq, Structural)]
pub enum Size {
    /// The other operand decides.
    Implied,
    Byte,
    Word,
    Dword,
    Qword,
}

/// The part of a memory operand that is added to its base register.
#[derive(Debug, Clone, Copy, PartialEq, Eq, Structural)]
pub enum Shift {
    Nothing,
    Plus(u64),
    Minus(u64),
    /// Eight bytes for each of so many entries.
    Eights(u64),
    Index(Reg),
}

/// An operand.
#[derive(Debug, Clone, Copy, PartialEq, Eq, Structural)]
pub enum Operand {
    /// A general-purpose register.
    R(Reg),
    /// A vector register.
    X(u8),
    /// A number in decimal.
    I(u64),
    /// A number in hexadecimal.
    H(u64),
    /// A word in hexadecimal, all its digits written out in upper case.
    Mask(u32),
    /// Memory at a register and a shift.
    M(Size, Reg, Shift),
    /// The address of a label.
    At(Label),
    /// A label to jump to.
    To(Label),
}

/// A line of assembly.
#[derive(Debug, Clone, Copy)]
pub enum Line {
    /// A directive of the assembler.
    Directive(&'static str),
    /// A comment.
    Note(&'static str),
    /// A label that stands here.
    Here(Label),
    /// An entry of the table of code addresses.
    Entry(u32),
    /// An instruction without operands, behind so many spaces.
    Op0(u8, Op),
    /// An instruction with one operand, behind so many spaces.
    Op1(u8, Op, Operand),
    /// An instruction with two operands, behind so many spaces.
    Op2(u8, Op, Operand, Operand),
    /// An instruction with three operands, behind so many spaces.
    Op3(u8, Op, Operand, Operand, Operand),
}

/// So many spaces.
pub open spec fn spaces(n: nat) -> Seq<char>
    decreases n,
{
    if n == 0 {
        Seq::empty()
    } else {
        spaces((n - 1) as nat) + " "@
    }
}

/// Append so many spaces.
fn put_spaces(out: &mut String, n: u8)
    ensures
        final(out)@ == old(out)@ + spaces(n as nat),
{
    let mut i: u8 = 0;
    proof {
        assert(out@ + spaces(0) =~= out@);
    }
    while i < n
        invariant
            i <= n,
            out@ == old(out)@ + spaces(i as nat),
        decreases n - i,
    {
        out.append(" ");
        i = i + 1;
        proof {
            assert(out@ =~= old(out)@ + spaces(i as nat));
        }
    }
}

/// A decimal or hexadecimal digit.
pub open spec fn digit(d: u64) -> Seq<char> {
    match d {
        0 => "0"@,
        1 => "1"@,
        2 => "2"@,
        3 => "3"@,
        4 => "4"@,
        5 => "5"@,
        6 => "6"@,
        7 => "7"@,
        8 => "8"@,
        9 => "9"@,
        10 => "a"@,
        11 => "b"@,
        12 => "c"@,
        13 => "d"@,
        14 => "e"@,
        _ => "f"@,
    }
}

/// A number in a base, most significant digit first.
pub open spec fn digits(n: nat, base: nat) -> Seq<char>
    decreases n,
{
    if base < 2 || n < base {
        digit(n as u64)
    } else {
        proof {
            assert(n / base < n) by (nonlinear_arith)
                requires
                    n >= base >= 2,
            ;
        }
        digits(n / base, base) + digit((n % base) as u64)
    }
}

/// A number in decimal.
pub open spec fn decimal(n: nat) -> Seq<char> {
    digits(n, 10)
}

/// A number in hexadecimal, marked as such.
pub open spec fn hexadecimal(n: nat) -> Seq<char> {
    "0x"@ + digits(n, 16)
}

/// The text of a digit.
fn digit_text(d: u64) -> (r: &'static str)
    requires
        d < 16,
    ensures
        r@ == digit(d),
{
    match d {
        0 => "0",
        1 => "1",
        2 => "2",
        3 => "3",
        4 => "4",
        5 => "5",
        6 => "6",
        7 => "7",
        8 => "8",
        9 => "9",
        10 => "a",
        11 => "b",
        12 => "c",
        13 => "d",
        14 => "e",
        _ => "f",
    }
}

/// Append the digits of a number.
fn put_digits(out: &mut String, n: u64, base: u64)
    requires
        2 <= base <= 16,
    ensures
        final(out)@ == old(out)@ + digits(n as nat, base as nat),
    decreases n,
{
    if n < base {
        out.append(digit_text(n));
    } else {
        assert(n / base < n) by (nonlinear_arith)
            requires
                n >= base >= 2,
        ;
        assert(n % base < base) by (nonlinear_arith)
            requires
                base >= 2,
        ;
        let ghost before = out@;
        put_digits(out, n / base, base);
        let ghost higher = out@;
        out.append(digit_text(n % base));
        assert(out@ =~= before + digits(n as nat, base as nat));
    }
}

/// The text of a number in decimal.
pub fn decimal_text(n: u64) -> (r: String)
    ensures
        r@ == decimal(n as nat),
{
    let mut out = String::new();
    put_digits(&mut out, n, 10);
    assert(out@ =~= decimal(n as nat));
    out
}

/// The text of a number in hexadecimal.
pub fn hexadecimal_text(n: u64) -> (r: String)
    ensures
        r@ == hexadecimal(n as nat),
{
    let mut out = String::new();
    out.append("0x");
    put_digits(&mut out, n, 16);
    assert(out@ =~= hexadecimal(n as nat));
    out
}

/// A hexadecimal digit in upper case.
pub open spec fn upper_digit(d: u32) -> Seq<char> {
    match d {
        10 => "A"@,
        11 => "B"@,
        12 => "C"@,
        13 => "D"@,
        14 => "E"@,
        15 => "F"@,
        _ => digit(d as u64),
    }
}

/// The lowest `n` hexadecimal digits of a word in upper case.
pub open spec fn upper_digits(word: u32, n: nat) -> Seq<char>
    decreases n,
{
    if n == 0 {
        Seq::empty()
    } else {
        upper_digits(word / 16, (n - 1) as nat) + upper_digit(word % 16)
    }
}

/// A word in hexadecimal, all its digits written out in upper case.
pub open spec fn mask(word: u32) -> Seq<char> {
    "0x"@ + upper_digits(word, 8)
}

/// Append the lowest `n` hexadecimal digits of a word in upper case.
fn put_upper_digits(out: &mut String, word: u32, n: u8)
    ensures
        final(out)@ == old(out)@ + upper_digits(word, n as nat),
    decreases n,
{
    let ghost before = out@;
    if n > 0 {
        put_upper_digits(out, word / 16, n - 1);
        let d: u32 = word % 16;
        match d {
            10 => out.append("A"),
            11 => out.append("B"),
            12 => out.append("C"),
            13 => out.append("D"),
            14 => out.append("E"),
            15 => out.append("F"),
            _ => out.append(digit_text(d as u64)),
        }
    }
    assert(out@ =~= before + upper_digits(word, n as nat));
}

/// The text of a word in hexadecimal, all its digits written out in upper case.
pub fn mask_text(word: u32) -> (r: String)
    ensures
        r@ == mask(word),
{
    let mut out = String::new();
    out.append("0x");
    put_upper_digits(&mut out, word, 8);
    assert(out@ =~= mask(word));
    out
}

impl Label {
    /// The text of the label.
    pub open spec fn name(self) -> Seq<char> {
        match self {
            Label::Run => "asm_run"@,
            Label::RunEnd => "asm_run_end"@,
            Label::PcTable => "map_pc_base"@,
            Label::Pc(pc) => "asm_execute_pc_"@ + decimal(pc as nat),
            Label::Counters(pc) => "."@ + decimal(pc as nat) + "_inc_pc_clk"@,
            Label::EndSyscall(pc) => "end_syscall_"@ + decimal(pc as nat),
            Label::Within(pc, spot) => ".pc_"@ + decimal(pc as nat) + "_"@ + spot.name(),
        }
    }

    /// The text of the label.
    pub fn text(self) -> (r: String)
        ensures
            r@ == self.name(),
    {
        let mut out = String::new();
        match self {
            Label::Run => {
                out.append("asm_run");
            },
            Label::RunEnd => {
                out.append("asm_run_end");
            },
            Label::PcTable => {
                out.append("map_pc_base");
            },
            Label::Pc(pc) => {
                out.append("asm_execute_pc_");
                out.append(decimal_text(pc as u64).as_str());
            },
            Label::Counters(pc) => {
                out.append(".");
                out.append(decimal_text(pc as u64).as_str());
                out.append("_inc_pc_clk");
            },
            Label::EndSyscall(pc) => {
                out.append("end_syscall_");
                out.append(decimal_text(pc as u64).as_str());
            },
            Label::Within(pc, spot) => {
                out.append(".pc_");
                out.append(decimal_text(pc as u64).as_str());
                out.append("_");
                out.append(spot.text());
            },
        }
        assert(out@ =~= self.name());
        out
    }
}

impl Size {
    /// The text of the mark.
    pub open spec fn name(self) -> Seq<char> {
        match self {
            Size::Implied => ""@,
            Size::Byte => "byte ptr "@,
            Size::Word => "word ptr "@,
            Size::Dword => "dword ptr "@,
            Size::Qword => "qword ptr "@,
        }
    }

    /// The text of the mark.
    pub fn text(self) -> (r: &'static str)
        ensures
            r@ == self.name(),
    {
        match self {
            Size::Implied => "",
            Size::Byte => "byte ptr ",
            Size::Word => "word ptr ",
            Size::Dword => "dword ptr ",
            Size::Qword => "qword ptr ",
        }
    }
}

impl Shift {
    /// The text of the shift.
    pub open spec fn name(self) -> Seq<char> {
        match self {
            Shift::Nothing => ""@,
            Shift::Plus(n) => " + "@ + decimal(n as nat),
            Shift::Minus(n) => " - "@ + decimal(n as nat),
            Shift::Eights(n) => " + 8*"@ + decimal(n as nat),
            Shift::Index(reg) => " + "@ + reg.name(),
        }
    }

    /// The text of the shift.
    pub fn text(self) -> (r: String)
        ensures
            r@ == self.name(),
    {
        let mut out = String::new();
        match self {
            Shift::Nothing => {
                out.append("");
            },
            Shift::Plus(n) => {
                out.append(" + ");
                out.append(decimal_text(n).as_str());
            },
            Shift::Minus(n) => {
                out.append(" - ");
                out.append(decimal_text(n).as_str());
            },
            Shift::Eights(n) => {
                out.append(" + 8*");
                out.append(decimal_text(n).as_str());
            },
            Shift::Index(reg) => {
                out.append(" + ");
                out.append(reg.text());
            },
        }
        assert(out@ =~= self.name());
        out
    }
}

impl Operand {
    /// The text of the operand.
    pub open spec fn name(self) -> Seq<char> {
        match self {
            Operand::R(reg) => reg.name(),
            Operand::X(n) => "xmm"@ + decimal(n as nat),
            Operand::I(n) => decimal(n as nat),
            Operand::H(n) => hexadecimal(n as nat),
            Operand::Mask(n) => mask(n),
            Operand::M(size, base, shift) => size.name() + "["@ + base.name() + shift.name()
                + "]"@,
            Operand::At(label) => "[rip + "@ + label.name() + "]"@,
            Operand::To(label) => label.name(),
        }
    }

    /// The text of the operand.
    pub fn text(self) -> (r: String)
        ensures
            r@ == self.name(),
    {
        let mut out = String::new();
        match self {
            Operand::R(reg) => {
                out.append(reg.text());
            },
            Operand::X(n) => {
                out.append("xmm");
                out.append(decimal_text(n as u64).as_str());
            },
            Operand::I(n) => {
                out.append(decimal_text(n).as_str());
            },
            Operand::H(n) => {
                out.append(hexadecimal_text(n).as_str());
            },
            Operand::Mask(n) => {
                out.append(mask_text(n).as_str());
            },
            Operand::M(size, base, shift) => {
                out.append(size.text());
                out.append("[");
                out.append(base.text());
                out.append(shift.text().as_str());
                out.append("]");
            },
            Operand::At(label) => {
                out.append("[rip + ");
                out.append(label.text().as_str());
                out.append("]");
            },
            Operand::To(label) => {
                out.append(label.text().as_str());
            },
        }
        assert(out@ =~= self.name());
        out
    }
}

impl Line {
    /// The text of the line, its end included.
    pub open spec fn name(self) -> Seq<char> {
        match self {
            Line::Directive(words) => words@ + "\n"@,
            Line::Note(words) => "    # "@ + words@ + "\n"@,
            Line::Here(label) => label.name() + ":\n"@,
            Line::Entry(pc) => "   .long "@ + Label::Pc(pc).name() + " - "@
                + Label::PcTable.name() + "\n"@,
            Line::Op0(n, op) => spaces(n as nat) + op.name() + "\n"@,
            Line::Op1(n, op, a) => spaces(n as nat) + op.name() + " "@ + a.name() + "\n"@,
            Line::Op2(n, op, a, b) => spaces(n as nat) + op.name() + " "@ + a.name() + ", "@
                + b.name() + "\n"@,
            Line::Op3(n, op, a, b, c) => spaces(n as nat) + op.name() + " "@ + a.name() + ", "@
                + b.name() + ", "@ + c.name() + "\n"@,
        }
    }

    /// The text of the line, its end included.
    pub fn text(self) -> (r: String)
        ensures
            r@ == self.name(),
    {
        let mut out = String::new();
        match self {
            Line::Directive(words) => {
                out.append(words);
                out.append("\n");
            },
            Line::Note(words) => {
                out.append("    # ");
                out.append(words);
                out.append("\n");
            },
            Line::Here(label) => {
                out.append(label.text().as_str());
                out.append(":\n");
            },
            Line::Entry(pc) => {
                out.append("   .long ");
                out.append(Label::Pc(pc).text().as_str());
                out.append(" - ");
                out.append(Label::PcTable.text().as_str());
                out.append("\n");
            },
            Line::Op0(n, op) => {
                put_spaces(&mut out, n);
                out.append(op.text());
                out.append("\n");
            },
            Line::Op1(n, op, a) => {
                put_spaces(&mut out, n);
                out.append(op.text());
                out.append(" ");
                out.append(a.text().as_str());
                out.append("\n");
            },
            Line::Op2(n, op, a, b) => {
                put_spaces(&mut out, n);
                out.append(op.text());
                out.append(" ");
                out.append(a.text().as_str());
                out.append(", ");
                out.append(b.text().as_str());
                out.append("\n");
            },
            Line::Op3(n, op, a, b, c) => {
                put_spaces(&mut out, n);
                out.append(op.text());
                out.append(" ");
                out.append(a.text().as_str());
                out.append(", ");
                out.append(b.text().as_str());
                out.append(", ");
                out.append(c.text().as_str());
                out.append("\n");
            },
        }
        assert(out@ =~= self.name());
        out
    }
}

/// The text of a listing: its lines one after the other.
pub open spec fn listing_text(lines: Seq<Line>) -> Seq<char>
    decreases lines.len(),
{
    if lines.len() == 0 {
        Seq::empty()
    } else {
        listing_text(lines.drop_last()) + lines.last().name()
    }
}

/// The text of a listing followed by another one.
pub proof fn listings_concatenate(a: Seq<Line>, b: Seq<Line>)
    ensures
        listing_text(a + b) == listing_text(a) + listing_text(b),
    decreases b.len(),
{
    if b.len() == 0 {
        assert(a + b =~= a);
        assert(listing_text(a) + listing_text(b) =~= listing_text(a));
    } else {
        listings_concatenate(a, b.drop_last());
        assert((a + b).drop_last() =~= a + b.drop_last());
        assert(listing_text(a) + listing_text(b) =~= (listing_text(a) + listing_text(
            b.drop_last(),
        )) + b.last().name());
    }
}

/// Write a listing down.
pub fn render(lines: &Vec<Line>) -> (r: String)
    ensures
        r@ == listing_text(lines@),
{
    let mut out = String::new();
    let mut i: usize = 0;
    assert(lines@.take(0) =~= Seq::<Line>::empty());
    while i < lines.len()
        invariant
            i <= lines@.len(),
            out@ == listing_text(lines@.take(i as int)),
        decreases lines@.len() - i,
    {
        proof {
            assert(lines@.take(i + 1).drop_last() =~= lines@.take(i as int));
        }
        out.append(lines[i].text().as_str());
        i = i + 1;
    }
    assert(lines@.take(lines@.len() as int) =~= lines@);
    out
}

/// Append a listing to another one.
pub fn join(lines: &mut Vec<Line>, more: Vec<Line>)
    ensures
        final(lines)@ == old(lines)@ + more@,
{
    let mut more = more;
    lines.append(&mut more);
}

} // verus!
