//! The chips of the proof system.
use vstd::prelude::*;

verus! {

/// The number of chips.
pub const NUM_AIRS: usize = 74;

/// A chip of the proof system.
#[derive(Clone, Copy, Debug, PartialEq, Eq, Structural)]
pub enum MipsAirId {
    Cpu,
    Program,
    DivRem,
    Add,
    Addi,
    AddNoop,
    AluX0,
    Sub,
    Bitwise,
    Mul,
    ShiftRight,
    ShiftLeft,
    Lui,
    Lt,
    Slti,
    CloClz,
    Branch,
    Jump,
    Jumpi,
    JumpDirect,
    SyscallInstrs,
    SyscallCore,
    LoadWord,
    LoadX0,
    StoreWord,
    LoadByte,
    LoadHalf,
    LoadWordUnaligned,
    StoreByte,
    StoreHalf,
    StoreWordUnaligned,
    StoreConditional,
    Sext,
    Ins,
    Ext,
    Maddsub,
    Teq,
    MemoryGlobalInit,
    MemoryGlobalFinalize,
    MemoryLocal,
    Global,
    Byte,
    MovCond,
    StateBump,
    MemoryBump,
    SyscallPrecompile,
    ShaExtendControl,
    ShaExtend,
    ShaCompressControl,
    ShaCompress,
    EdAddAssign,
    EdDecompress,
    KeccakSponge,
    Secp256k1AddAssign,
    Secp256k1DoubleAssign,
    Secp256k1Decompress,
    Secp256r1AddAssign,
    Secp256r1DoubleAssign,
    Secp256r1Decompress,
    Bn254AddAssign,
    Bn254DoubleAssign,
    Bls12381AddAssign,
    Bls12381DoubleAssign,
    Bls12381Decompress,
    Uint256MulMod,
    U256XU2048Mul,
    Poseidon2Permute,
    Bls12381FpOpAssign,
    Bls12831Fp2AddSubAssign,
    Bls12831Fp2MulAssign,
    Bn254FpOpAssign,
    Bn254Fp2AddSubAssign,
    Bn254Fp2MulAssign,
    SysLinux,
}

impl MipsAirId {
    /// The position of the chip among all chips.
    pub open spec fn ordinal(self) -> int {
        match self {
            MipsAirId::Cpu => 0,
            MipsAirId::Program => 1,
            MipsAirId::DivRem => 2,
            MipsAirId::Add => 3,
            MipsAirId::Addi => 4,
            MipsAirId::AddNoop => 5,
            MipsAirId::AluX0 => 6,
            MipsAirId::Sub => 7,
            MipsAirId::Bitwise => 8,
            MipsAirId::Mul => 9,
            MipsAirId::ShiftRight => 10,
            MipsAirId::ShiftLeft => 11,
            MipsAirId::Lui => 12,
            MipsAirId::Lt => 13,
            MipsAirId::Slti => 14,
            MipsAirId::CloClz => 15,
            MipsAirId::Branch => 16,
            MipsAirId::Jump => 17,
            MipsAirId::Jumpi => 18,
            MipsAirId::JumpDirect => 19,
            MipsAirId::SyscallInstrs => 20,
            MipsAirId::SyscallCore => 21,
            MipsAirId::LoadWord => 22,
            MipsAirId::LoadX0 => 23,
            MipsAirId::StoreWord => 24,
            MipsAirId::LoadByte => 25,
            MipsAirId::LoadHalf => 26,
            MipsAirId::LoadWordUnaligned => 27,
            MipsAirId::StoreByte => 28,
            MipsAirId::StoreHalf => 29,
            MipsAirId::StoreWordUnaligned => 30,
            MipsAirId::StoreConditional => 31,
            MipsAirId::Sext => 32,
            MipsAirId::Ins => 33,
            MipsAirId::Ext => 34,
            MipsAirId::Maddsub => 35,
            MipsAirId::Teq => 36,
            MipsAirId::MemoryGlobalInit => 37,
            MipsAirId::MemoryGlobalFinalize => 38,
            MipsAirId::MemoryLocal => 39,
            MipsAirId::Global => 40,
            MipsAirId::Byte => 41,
            MipsAirId::MovCond => 42,
            MipsAirId::StateBump => 43,
            MipsAirId::MemoryBump => 44,
            MipsAirId::SyscallPrecompile => 45,
            MipsAirId::ShaExtendControl => 46,
            MipsAirId::ShaExtend => 47,
            MipsAirId::ShaCompressControl => 48,
            MipsAirId::ShaCompress => 49,
            MipsAirId::EdAddAssign => 50,
            MipsAirId::EdDecompress => 51,
            MipsAirId::KeccakSponge => 52,
            MipsAirId::Secp256k1AddAssign => 53,
            MipsAirId::Secp256k1DoubleAssign => 54,
            MipsAirId::Secp256k1Decompress => 55,
            MipsAirId::Secp256r1AddAssign => 56,
            MipsAirId::Secp256r1DoubleAssign => 57,
            MipsAirId::Secp256r1Decompress => 58,
            MipsAirId::Bn254AddAssign => 59,
            MipsAirId::Bn254DoubleAssign => 60,
            MipsAirId::Bls12381AddAssign => 61,
            MipsAirId::Bls12381DoubleAssign => 62,
            MipsAirId::Bls12381Decompress => 63,
            MipsAirId::Uint256MulMod => 64,
            MipsAirId::U256XU2048Mul => 65,
            MipsAirId::Poseidon2Permute => 66,
            MipsAirId::Bls12381FpOpAssign => 67,
            MipsAirId::Bls12831Fp2AddSubAssign => 68,
            MipsAirId::Bls12831Fp2MulAssign => 69,
            MipsAirId::Bn254FpOpAssign => 70,
            MipsAirId::Bn254Fp2AddSubAssign => 71,
            MipsAirId::Bn254Fp2MulAssign => 72,
            MipsAirId::SysLinux => 73,
        }
    }

    /// The position of the chip among all chips.
    pub fn index(&self) -> (r: usize)
        ensures
            r == self.ordinal(),
            r < NUM_AIRS,
    {
        match self {
            MipsAirId::Cpu => 0,
            MipsAirId::Program => 1,
            MipsAirId::DivRem => 2,
            MipsAirId::Add => 3,
            MipsAirId::Addi => 4,
            MipsAirId::AddNoop => 5,
            MipsAirId::AluX0 => 6,
            MipsAirId::Sub => 7,
            MipsAirId::Bitwise => 8,
            MipsAirId::Mul => 9,
            MipsAirId::ShiftRight => 10,
            MipsAirId::ShiftLeft => 11,
            MipsAirId::Lui => 12,
            MipsAirId::Lt => 13,
            MipsAirId::Slti => 14,
            MipsAirId::CloClz => 15,
            MipsAirId::Branch => 16,
            MipsAirId::Jump => 17,
            MipsAirId::Jumpi => 18,
            MipsAirId::JumpDirect => 19,
            MipsAirId::SyscallInstrs => 20,
            MipsAirId::SyscallCore => 21,
            MipsAirId::LoadWord => 22,
            MipsAirId::LoadX0 => 23,
            MipsAirId::StoreWord => 24,
            MipsAirId::LoadByte => 25,
            MipsAirId::LoadHalf => 26,
            MipsAirId::LoadWordUnaligned => 27,
            MipsAirId::StoreByte => 28,
            MipsAirId::StoreHalf => 29,
            MipsAirId::StoreWordUnaligned => 30,
            MipsAirId::StoreConditional => 31,
            MipsAirId::Sext => 32,
            MipsAirId::Ins => 33,
            MipsAirId::Ext => 34,
            MipsAirId::Maddsub => 35,
            MipsAirId::Teq => 36,
            MipsAirId::MemoryGlobalInit => 37,
            MipsAirId::MemoryGlobalFinalize => 38,
            MipsAirId::MemoryLocal => 39,
            MipsAirId::Global => 40,
            MipsAirId::Byte => 41,
            MipsAirId::MovCond => 42,
            MipsAirId::StateBump => 43,
            MipsAirId::MemoryBump => 44,
            MipsAirId::SyscallPrecompile => 45,
            MipsAirId::ShaExtendControl => 46,
            MipsAirId::ShaExtend => 47,
            MipsAirId::ShaCompressControl => 48,
            MipsAirId::ShaCompress => 49,
            MipsAirId::EdAddAssign => 50,
            MipsAirId::EdDecompress => 51,
            MipsAirId::KeccakSponge => 52,
            MipsAirId::Secp256k1AddAssign => 53,
            MipsAirId::Secp256k1DoubleAssign => 54,
            MipsAirId::Secp256k1Decompress => 55,
            MipsAirId::Secp256r1AddAssign => 56,
            MipsAirId::Secp256r1DoubleAssign => 57,
            MipsAirId::Secp256r1Decompress => 58,
            MipsAirId::Bn254AddAssign => 59,
            MipsAirId::Bn254DoubleAssign => 60,
            MipsAirId::Bls12381AddAssign => 61,
            MipsAirId::Bls12381DoubleAssign => 62,
            MipsAirId::Bls12381Decompress => 63,
            MipsAirId::Uint256MulMod => 64,
            MipsAirId::U256XU2048Mul => 65,
            MipsAirId::Poseidon2Permute => 66,
            MipsAirId::Bls12381FpOpAssign => 67,
            MipsAirId::Bls12831Fp2AddSubAssign => 68,
            MipsAirId::Bls12831Fp2MulAssign => 69,
            MipsAirId::Bn254FpOpAssign => 70,
            MipsAirId::Bn254Fp2AddSubAssign => 71,
            MipsAirId::Bn254Fp2MulAssign => 72,
            MipsAirId::SysLinux => 73,
        }
    }

    /// The chip at a position.
    pub open spec fn at(i: usize) -> MipsAirId {
        match i {
            0 => MipsAirId::Cpu,
            1 => MipsAirId::Program,
            2 => MipsAirId::DivRem,
            3 => MipsAirId::Add,
            4 => MipsAirId::Addi,
            5 => MipsAirId::AddNoop,
            6 => MipsAirId::AluX0,
            7 => MipsAirId::Sub,
            8 => MipsAirId::Bitwise,
            9 => MipsAirId::Mul,
            10 => MipsAirId::ShiftRight,
            11 => MipsAirId::ShiftLeft,
            12 => MipsAirId::Lui,
            13 => MipsAirId::Lt,
            14 => MipsAirId::Slti,
            15 => MipsAirId::CloClz,
            16 => MipsAirId::Branch,
            17 => MipsAirId::Jump,
            18 => MipsAirId::Jumpi,
            19 => MipsAirId::JumpDirect,
            20 => MipsAirId::SyscallInstrs,
            21 => MipsAirId::SyscallCore,
            22 => MipsAirId::LoadWord,
            23 => MipsAirId::LoadX0,
            24 => MipsAirId::StoreWord,
            25 => MipsAirId::LoadByte,
            26 => MipsAirId::LoadHalf,
            27 => MipsAirId::LoadWordUnaligned,
            28 => MipsAirId::StoreByte,
            29 => MipsAirId::StoreHalf,
            30 => MipsAirId::StoreWordUnaligned,
            31 => MipsAirId::StoreConditional,
            32 => MipsAirId::Sext,
            33 => MipsAirId::Ins,
            34 => MipsAirId::Ext,
            35 => MipsAirId::Maddsub,
            36 => MipsAirId::Teq,
            37 => MipsAirId::MemoryGlobalInit,
            38 => MipsAirId::MemoryGlobalFinalize,
            39 => MipsAirId::MemoryLocal,
            40 => MipsAirId::Global,
            41 => MipsAirId::Byte,
            42 => MipsAirId::MovCond,
            43 => MipsAirId::StateBump,
            44 => MipsAirId::MemoryBump,
            45 => MipsAirId::SyscallPrecompile,
            46 => MipsAirId::ShaExtendControl,
            47 => MipsAirId::ShaExtend,
            48 => MipsAirId::ShaCompressControl,
            49 => MipsAirId::ShaCompress,
            50 => MipsAirId::EdAddAssign,
            51 => MipsAirId::EdDecompress,
            52 => MipsAirId::KeccakSponge,
            53 => MipsAirId::Secp256k1AddAssign,
            54 => MipsAirId::Secp256k1DoubleAssign,
            55 => MipsAirId::Secp256k1Decompress,
            56 => MipsAirId::Secp256r1AddAssign,
            57 => MipsAirId::Secp256r1DoubleAssign,
            58 => MipsAirId::Secp256r1Decompress,
            59 => MipsAirId::Bn254AddAssign,
            60 => MipsAirId::Bn254DoubleAssign,
            61 => MipsAirId::Bls12381AddAssign,
            62 => MipsAirId::Bls12381DoubleAssign,
            63 => MipsAirId::Bls12381Decompress,
            64 => MipsAirId::Uint256MulMod,
            65 => MipsAirId::U256XU2048Mul,
            66 => MipsAirId::Poseidon2Permute,
            67 => MipsAirId::Bls12381FpOpAssign,
            68 => MipsAirId::Bls12831Fp2AddSubAssign,
            69 => MipsAirId::Bls12831Fp2MulAssign,
            70 => MipsAirId::Bn254FpOpAssign,
            71 => MipsAirId::Bn254Fp2AddSubAssign,
            72 => MipsAirId::Bn254Fp2MulAssign,
            _ => MipsAirId::SysLinux,
        }
    }

    /// The chip at a position.
    pub fn from_index(i: usize) -> (r: MipsAirId)
        requires
            i < NUM_AIRS,
        ensures
            r == Self::at(i),
            r.ordinal() == i,
    {
        match i {
            0 => MipsAirId::Cpu,
            1 => MipsAirId::Program,
            2 => MipsAirId::DivRem,
            3 => MipsAirId::Add,
            4 => MipsAirId::Addi,
            5 => MipsAirId::AddNoop,
            6 => MipsAirId::AluX0,
            7 => MipsAirId::Sub,
            8 => MipsAirId::Bitwise,
            9 => MipsAirId::Mul,
            10 => MipsAirId::ShiftRight,
            11 => MipsAirId::ShiftLeft,
            12 => MipsAirId::Lui,
            13 => MipsAirId::Lt,
            14 => MipsAirId::Slti,
            15 => MipsAirId::CloClz,
            16 => MipsAirId::Branch,
            17 => MipsAirId::Jump,
            18 => MipsAirId::Jumpi,
            19 => MipsAirId::JumpDirect,
            20 => MipsAirId::SyscallInstrs,
            21 => MipsAirId::SyscallCore,
            22 => MipsAirId::LoadWord,
            23 => MipsAirId::LoadX0,
            24 => MipsAirId::StoreWord,
            25 => MipsAirId::LoadByte,
            26 => MipsAirId::LoadHalf,
            27 => MipsAirId::LoadWordUnaligned,
            28 => MipsAirId::StoreByte,
            29 => MipsAirId::StoreHalf,
            30 => MipsAirId::StoreWordUnaligned,
            31 => MipsAirId::StoreConditional,
            32 => MipsAirId::Sext,
            33 => MipsAirId::Ins,
            34 => MipsAirId::Ext,
            35 => MipsAirId::Maddsub,
            36 => MipsAirId::Teq,
            37 => MipsAirId::MemoryGlobalInit,
            38 => MipsAirId::MemoryGlobalFinalize,
            39 => MipsAirId::MemoryLocal,
            40 => MipsAirId::Global,
            41 => MipsAirId::Byte,
            42 => MipsAirId::MovCond,
            43 => MipsAirId::StateBump,
            44 => MipsAirId::MemoryBump,
            45 => MipsAirId::SyscallPrecompile,
            46 => MipsAirId::ShaExtendControl,
            47 => MipsAirId::ShaExtend,
            48 => MipsAirId::ShaCompressControl,
            49 => MipsAirId::ShaCompress,
            50 => MipsAirId::EdAddAssign,
            51 => MipsAirId::EdDecompress,
            52 => MipsAirId::KeccakSponge,
            53 => MipsAirId::Secp256k1AddAssign,
            54 => MipsAirId::Secp256k1DoubleAssign,
            55 => MipsAirId::Secp256k1Decompress,
            56 => MipsAirId::Secp256r1AddAssign,
            57 => MipsAirId::Secp256r1DoubleAssign,
            58 => MipsAirId::Secp256r1Decompress,
            59 => MipsAirId::Bn254AddAssign,
            60 => MipsAirId::Bn254DoubleAssign,
            61 => MipsAirId::Bls12381AddAssign,
            62 => MipsAirId::Bls12381DoubleAssign,
            63 => MipsAirId::Bls12381Decompress,
            64 => MipsAirId::Uint256MulMod,
            65 => MipsAirId::U256XU2048Mul,
            66 => MipsAirId::Poseidon2Permute,
            67 => MipsAirId::Bls12381FpOpAssign,
            68 => MipsAirId::Bls12831Fp2AddSubAssign,
            69 => MipsAirId::Bls12831Fp2MulAssign,
            70 => MipsAirId::Bn254FpOpAssign,
            71 => MipsAirId::Bn254Fp2AddSubAssign,
            72 => MipsAirId::Bn254Fp2MulAssign,
            _ => MipsAirId::SysLinux,
        }
    }

    /// Whether the chip serves ordinary instructions and memory rather than precompiled operations.
    pub open spec fn is_core(self) -> bool {
        match self {
            MipsAirId::Cpu => false,
            MipsAirId::Program => true,
            MipsAirId::DivRem => true,
            MipsAirId::Add => true,
            MipsAirId::Addi => true,
            MipsAirId::AddNoop => true,
            MipsAirId::AluX0 => true,
            MipsAirId::Sub => true,
            MipsAirId::Bitwise => true,
            MipsAirId::Mul => true,
            MipsAirId::ShiftRight => true,
            MipsAirId::ShiftLeft => true,
            MipsAirId::Lui => true,
            MipsAirId::Lt => true,
            MipsAirId::Slti => true,
            MipsAirId::CloClz => true,
            MipsAirId::Branch => true,
            MipsAirId::Jump => true,
            MipsAirId::Jumpi => true,
            MipsAirId::JumpDirect => true,
            MipsAirId::SyscallInstrs => true,
            MipsAirId::SyscallCore => true,
            MipsAirId::LoadWord => true,
            MipsAirId::LoadX0 => true,
            MipsAirId::StoreWord => true,
            MipsAirId::LoadByte => true,
            MipsAirId::LoadHalf => true,
            MipsAirId::LoadWordUnaligned => true,
            MipsAirId::StoreByte => true,
            MipsAirId::StoreHalf => true,
            MipsAirId::StoreWordUnaligned => true,
            MipsAirId::StoreConditional => true,
            MipsAirId::Sext => true,
            MipsAirId::Ins => true,
            MipsAirId::Ext => true,
            MipsAirId::Maddsub => true,
            MipsAirId::Teq => true,
            MipsAirId::MemoryGlobalInit => true,
            MipsAirId::MemoryGlobalFinalize => true,
            MipsAirId::MemoryLocal => true,
            MipsAirId::Global => true,
            MipsAirId::Byte => true,
            MipsAirId::MovCond => true,
            MipsAirId::StateBump => true,
            MipsAirId::MemoryBump => true,
            _ => false,
        }
    }

    /// Whether the chip serves ordinary instructions and memory rather than precompiled operations.
    pub fn is_core_air(&self) -> (r: bool)
        ensures
            r == self.is_core(),
    {
        match self {
            MipsAirId::Cpu => false,
            MipsAirId::Program => true,
            MipsAirId::DivRem => true,
            MipsAirId::Add => true,
            MipsAirId::Addi => true,
            MipsAirId::AddNoop => true,
            MipsAirId::AluX0 => true,
            MipsAirId::Sub => true,
            MipsAirId::Bitwise => true,
            MipsAirId::Mul => true,
            MipsAirId::ShiftRight => true,
            MipsAirId::ShiftLeft => true,
            MipsAirId::Lui => true,
            MipsAirId::Lt => true,
            MipsAirId::Slti => true,
            MipsAirId::CloClz => true,
            MipsAirId::Branch => true,
            MipsAirId::Jump => true,
            MipsAirId::Jumpi => true,
            MipsAirId::JumpDirect => true,
            MipsAirId::SyscallInstrs => true,
            MipsAirId::SyscallCore => true,
            MipsAirId::LoadWord => true,
            MipsAirId::LoadX0 => true,
            MipsAirId::StoreWord => true,
            MipsAirId::LoadByte => true,
            MipsAirId::LoadHalf => true,
            MipsAirId::LoadWordUnaligned => true,
            MipsAirId::StoreByte => true,
            MipsAirId::StoreHalf => true,
            MipsAirId::StoreWordUnaligned => true,
            MipsAirId::StoreConditional => true,
            MipsAirId::Sext => true,
            MipsAirId::Ins => true,
            MipsAirId::Ext => true,
            MipsAirId::Maddsub => true,
            MipsAirId::Teq => true,
            MipsAirId::MemoryGlobalInit => true,
            MipsAirId::MemoryGlobalFinalize => true,
            MipsAirId::MemoryLocal => true,
            MipsAirId::Global => true,
            MipsAirId::Byte => true,
            MipsAirId::MovCond => true,
            MipsAirId::StateBump => true,
            MipsAirId::MemoryBump => true,
            _ => false,
        }
    }
}

/// Different chips have different positions.
pub proof fn air_positions_are_distinct(a: MipsAirId, b: MipsAirId)
    requires
        a.ordinal() == b.ordinal(),
    ensures
        a == b,
        MipsAirId::at(a.ordinal() as usize) == a,
        0 <= a.ordinal() < NUM_AIRS,
{
}

} // verus!
