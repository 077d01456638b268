//! System call codes and the file descriptors that the write call knows.
use vstd::prelude::*;

verus! {

/// Standard output.
pub const FD_STDOUT: u32 = 1;

/// Standard error.
pub const FD_STDERR: u32 = 2;

/// The stream of public values.
pub const FD_PUBLIC_VALUES: u32 = 3;

/// The stream of hints.
pub const FD_HINT: u32 = 4;

/// The hook that recovers a secp256k1 public key.
pub const K1_ECRECOVER_HOOK: u32 = 5;

/// The hook that inverts the scalar of a secp256r1 signature.
pub const R1_ECRECOVER_HOOK: u32 = 6;

/// The hook that computes a square root in a prime field.
pub const FD_FP_SQRT: u32 = 7;

/// The hook that computes an inverse in a prime field.
pub const FD_FP_INV: u32 = 8;

/// The most cycles that any system call takes beyond an ordinary instruction.
pub const MAX_SYSCALL_CYCLES: u32 = 48;

/// The number of system call codes.
pub const NUM_SYSCALLS: usize = 64;

/// A system call.
#[allow(non_camel_case_types)]
#[derive(Clone, Copy, Debug, PartialEq, Eq, Structural, Hash)]
pub enum SyscallCode {
    HALT,
    WRITE,
    ENTER_UNCONSTRAINED,
    EXIT_UNCONSTRAINED,
    SHA_EXTEND,
    SHA_COMPRESS,
    ED_ADD,
    ED_DECOMPRESS,
    KECCAK_SPONGE,
    SECP256K1_ADD,
    SECP256K1_DOUBLE,
    SECP256K1_DECOMPRESS,
    BN254_ADD,
    BN254_DOUBLE,
    COMMIT,
    COMMIT_DEFERRED_PROOFS,
    VERIFY_ZKM_PROOF,
    BLS12381_DECOMPRESS,
    SYSHINTLEN,
    SYSHINTREAD,
    UINT256_MUL,
    U256XU2048_MUL,
    BLS12381_ADD,
    BLS12381_DOUBLE,
    BLS12381_FP_ADD,
    BLS12381_FP_SUB,
    BLS12381_FP_MUL,
    BLS12381_FP2_ADD,
    BLS12381_FP2_SUB,
    BLS12381_FP2_MUL,
    BN254_FP_ADD,
    BN254_FP_SUB,
    BN254_FP_MUL,
    BN254_FP2_ADD,
    BN254_FP2_SUB,
    BN254_FP2_MUL,
    SECP256R1_ADD,
    SECP256R1_DOUBLE,
    SECP256R1_DECOMPRESS,
    POSEIDON2_PERMUTE,
    SYS_LINUX,
    SYS_READ,
    SYS_WRITE,
    SYS_OPEN,
    SYS_CLOSE,
    SYS_BRK,
    SYS_FCNTL,
    SYS_MMAP,
    SYS_MUNMAP,
    SYS_CLONE,
    SYS_NANOSLEEP,
    SYS_RT_SIGACTION,
    SYS_RT_SIGPROCMASK,
    SYS_SIGALTSTACK,
    SYS_MMAP2,
    SYS_FSTAT64,
    SYS_MADVISE,
    SYS_GETTID,
    SYS_SCHED_GETAFFINITY,
    SYS_EXT_GROUP,
    SYS_CLOCK_GETTIME,
    SYS_OPENAT,
    SYS_PRLIMIT64,
    /// Any number that is not the id of a system call.
    UNIMPLEMENTED,
}

impl SyscallCode {
    /// The number that a program passes to make the call.
    pub open spec fn code(self) -> u32 {
        match self {
            SyscallCode::HALT => 0x0,
            SyscallCode::WRITE => 0x2,
            SyscallCode::ENTER_UNCONSTRAINED => 0x3,
            SyscallCode::EXIT_UNCONSTRAINED => 0x4,
            SyscallCode::SHA_EXTEND => 0x30010005,
            SyscallCode::SHA_COMPRESS => 0x1010006,
            SyscallCode::ED_ADD => 0x1010007,
            SyscallCode::ED_DECOMPRESS => 0x10008,
            SyscallCode::KECCAK_SPONGE => 0x1010009,
            SyscallCode::SECP256K1_ADD => 0x101000A,
            SyscallCode::SECP256K1_DOUBLE => 0x1000B,
            SyscallCode::SECP256K1_DECOMPRESS => 0x1000C,
            SyscallCode::BN254_ADD => 0x101000E,
            SyscallCode::BN254_DOUBLE => 0x1000F,
            SyscallCode::COMMIT => 0x10,
            SyscallCode::COMMIT_DEFERRED_PROOFS => 0x1A,
            SyscallCode::VERIFY_ZKM_PROOF => 0x1B,
            SyscallCode::BLS12381_DECOMPRESS => 0x1001C,
            SyscallCode::SYSHINTLEN => 0xF0,
            SyscallCode::SYSHINTREAD => 0xF1,
            SyscallCode::UINT256_MUL => 0x101001D,
            SyscallCode::U256XU2048_MUL => 0x101002F,
            SyscallCode::BLS12381_ADD => 0x101001E,
            SyscallCode::BLS12381_DOUBLE => 0x1001F,
            SyscallCode::BLS12381_FP_ADD => 0x1010020,
            SyscallCode::BLS12381_FP_SUB => 0x1010021,
            SyscallCode::BLS12381_FP_MUL => 0x1010022,
            SyscallCode::BLS12381_FP2_ADD => 0x1010023,
            SyscallCode::BLS12381_FP2_SUB => 0x1010024,
            SyscallCode::BLS12381_FP2_MUL => 0x1010025,
            SyscallCode::BN254_FP_ADD => 0x1010026,
            SyscallCode::BN254_FP_SUB => 0x1010027,
            SyscallCode::BN254_FP_MUL => 0x1010028,
            SyscallCode::BN254_FP2_ADD => 0x1010029,
            SyscallCode::BN254_FP2_SUB => 0x101002A,
            SyscallCode::BN254_FP2_MUL => 0x101002B,
            SyscallCode::SECP256R1_ADD => 0x101002C,
            SyscallCode::SECP256R1_DOUBLE => 0x1002D,
            SyscallCode::SECP256R1_DECOMPRESS => 0x1002E,
            SyscallCode::POSEIDON2_PERMUTE => 0x10030,
            SyscallCode::SYS_LINUX => 0xFA0,
            SyscallCode::SYS_READ => 0xFA3,
            SyscallCode::SYS_WRITE => 0xFA4,
            SyscallCode::SYS_OPEN => 0xFA5,
            SyscallCode::SYS_CLOSE => 0xFA6,
            SyscallCode::SYS_BRK => 0xFCD,
            SyscallCode::SYS_FCNTL => 0xFD7,
            SyscallCode::SYS_MMAP => 0xFFA,
            SyscallCode::SYS_MUNMAP => 0xFFB,
            SyscallCode::SYS_CLONE => 0x1018,
            SyscallCode::SYS_NANOSLEEP => 0x1046,
            SyscallCode::SYS_RT_SIGACTION => 0x1062,
            SyscallCode::SYS_RT_SIGPROCMASK => 0x1063,
            SyscallCode::SYS_SIGALTSTACK => 0x106E,
            SyscallCode::SYS_MMAP2 => 0x1072,
            SyscallCode::SYS_FSTAT64 => 0x1077,
            SyscallCode::SYS_MADVISE => 0x107A,
            SyscallCode::SYS_GETTID => 0x107E,
            SyscallCode::SYS_SCHED_GETAFFINITY => 0x1090,
            SyscallCode::SYS_EXT_GROUP => 0x1096,
            SyscallCode::SYS_CLOCK_GETTIME => 0x10A7,
            SyscallCode::SYS_OPENAT => 0x10C0,
            SyscallCode::SYS_PRLIMIT64 => 0x10F2,
            SyscallCode::UNIMPLEMENTED => 0xFFFF_FFFF,
        }
    }

    /// The number that a program passes to make the call.
    pub fn id(&self) -> (r: u32)
        ensures
            r == self.code(),
    {
        match self {
            SyscallCode::HALT => 0x0,
            SyscallCode::WRITE => 0x2,
            SyscallCode::ENTER_UNCONSTRAINED => 0x3,
            SyscallCode::EXIT_UNCONSTRAINED => 0x4,
            SyscallCode::SHA_EXTEND => 0x30010005,
            SyscallCode::SHA_COMPRESS => 0x1010006,
            SyscallCode::ED_ADD => 0x1010007,
            SyscallCode::ED_DECOMPRESS => 0x10008,
            SyscallCode::KECCAK_SPONGE => 0x1010009,
            SyscallCode::SECP256K1_ADD => 0x101000A,
            SyscallCode::SECP256K1_DOUBLE => 0x1000B,
            SyscallCode::SECP256K1_DECOMPRESS => 0x1000C,
            SyscallCode::BN254_ADD => 0x101000E,
            SyscallCode::BN254_DOUBLE => 0x1000F,
            SyscallCode::COMMIT => 0x10,
            SyscallCode::COMMIT_DEFERRED_PROOFS => 0x1A,
            SyscallCode::VERIFY_ZKM_PROOF => 0x1B,
            SyscallCode::BLS12381_DECOMPRESS => 0x1001C,
            SyscallCode::SYSHINTLEN => 0xF0,
            SyscallCode::SYSHINTREAD => 0xF1,
            SyscallCode::UINT256_MUL => 0x101001D,
            SyscallCode::U256XU2048_MUL => 0x101002F,
            SyscallCode::BLS12381_ADD => 0x101001E,
            SyscallCode::BLS12381_DOUBLE => 0x1001F,
            SyscallCode::BLS12381_FP_ADD => 0x1010020,
            SyscallCode::BLS12381_FP_SUB => 0x1010021,
            SyscallCode::BLS12381_FP_MUL => 0x1010022,
            SyscallCode::BLS12381_FP2_ADD => 0x1010023,
            SyscallCode::BLS12381_FP2_SUB => 0x1010024,
            SyscallCode::BLS12381_FP2_MUL => 0x1010025,
            SyscallCode::BN254_FP_ADD => 0x1010026,
            SyscallCode::BN254_FP_SUB => 0x1010027,
            SyscallCode::BN254_FP_MUL => 0x1010028,
            SyscallCode::BN254_FP2_ADD => 0x1010029,
            SyscallCode::BN254_FP2_SUB => 0x101002A,
            SyscallCode::BN254_FP2_MUL => 0x101002B,
            SyscallCode::SECP256R1_ADD => 0x101002C,
            SyscallCode::SECP256R1_DOUBLE => 0x1002D,
            SyscallCode::SECP256R1_DECOMPRESS => 0x1002E,
            SyscallCode::POSEIDON2_PERMUTE => 0x10030,
            SyscallCode::SYS_LINUX => 0xFA0,
            SyscallCode::SYS_READ => 0xFA3,
            SyscallCode::SYS_WRITE => 0xFA4,
            SyscallCode::SYS_OPEN => 0xFA5,
            SyscallCode::SYS_CLOSE => 0xFA6,
            SyscallCode::SYS_BRK => 0xFCD,
            SyscallCode::SYS_FCNTL => 0xFD7,
            SyscallCode::SYS_MMAP => 0xFFA,
            SyscallCode::SYS_MUNMAP => 0xFFB,
            SyscallCode::SYS_CLONE => 0x1018,
            SyscallCode::SYS_NANOSLEEP => 0x1046,
            SyscallCode::SYS_RT_SIGACTION => 0x1062,
            SyscallCode::SYS_RT_SIGPROCMASK => 0x1063,
            SyscallCode::SYS_SIGALTSTACK => 0x106E,
            SyscallCode::SYS_MMAP2 => 0x1072,
            SyscallCode::SYS_FSTAT64 => 0x1077,
            SyscallCode::SYS_MADVISE => 0x107A,
            SyscallCode::SYS_GETTID => 0x107E,
            SyscallCode::SYS_SCHED_GETAFFINITY => 0x1090,
            SyscallCode::SYS_EXT_GROUP => 0x1096,
            SyscallCode::SYS_CLOCK_GETTIME => 0x10A7,
            SyscallCode::SYS_OPENAT => 0x10C0,
            SyscallCode::SYS_PRLIMIT64 => 0x10F2,
            SyscallCode::UNIMPLEMENTED => 0xFFFF_FFFF,
        }
    }

    /// The position of the code.
    pub open spec fn ordinal(self) -> int {
        match self {
            SyscallCode::HALT => 0,
            SyscallCode::WRITE => 1,
            SyscallCode::ENTER_UNCONSTRAINED => 2,
            SyscallCode::EXIT_UNCONSTRAINED => 3,
            SyscallCode::SHA_EXTEND => 4,
            SyscallCode::SHA_COMPRESS => 5,
            SyscallCode::ED_ADD => 6,
            SyscallCode::ED_DECOMPRESS => 7,
            SyscallCode::KECCAK_SPONGE => 8,
            SyscallCode::SECP256K1_ADD => 9,
            SyscallCode::SECP256K1_DOUBLE => 10,
            SyscallCode::SECP256K1_DECOMPRESS => 11,
            SyscallCode::BN254_ADD => 12,
            SyscallCode::BN254_DOUBLE => 13,
            SyscallCode::COMMIT => 14,
            SyscallCode::COMMIT_DEFERRED_PROOFS => 15,
            SyscallCode::VERIFY_ZKM_PROOF => 16,
            SyscallCode::BLS12381_DECOMPRESS => 17,
            SyscallCode::SYSHINTLEN => 18,
            SyscallCode::SYSHINTREAD => 19,
            SyscallCode::UINT256_MUL => 20,
            SyscallCode::U256XU2048_MUL => 21,
            SyscallCode::BLS12381_ADD => 22,
            SyscallCode::BLS12381_DOUBLE => 23,
            SyscallCode::BLS12381_FP_ADD => 24,
            SyscallCode::BLS12381_FP_SUB => 25,
            SyscallCode::BLS12381_FP_MUL => 26,
            SyscallCode::BLS12381_FP2_ADD => 27,
            SyscallCode::BLS12381_FP2_SUB => 28,
            SyscallCode::BLS12381_FP2_MUL => 29,
            SyscallCode::BN254_FP_ADD => 30,
            SyscallCode::BN254_FP_SUB => 31,
            SyscallCode::BN254_FP_MUL => 32,
            SyscallCode::BN254_FP2_ADD => 33,
            SyscallCode::BN254_FP2_SUB => 34,
            SyscallCode::BN254_FP2_MUL => 35,
            SyscallCode::SECP256R1_ADD => 36,
            SyscallCode::SECP256R1_DOUBLE => 37,
            SyscallCode::SECP256R1_DECOMPRESS => 38,
            SyscallCode::POSEIDON2_PERMUTE => 39,
            SyscallCode::SYS_LINUX => 40,
            SyscallCode::SYS_READ => 41,
            SyscallCode::SYS_WRITE => 42,
            SyscallCode::SYS_OPEN => 43,
            SyscallCode::SYS_CLOSE => 44,
            SyscallCode::SYS_BRK => 45,
            SyscallCode::SYS_FCNTL => 46,
            SyscallCode::SYS_MMAP => 47,
            SyscallCode::SYS_MUNMAP => 48,
            SyscallCode::SYS_CLONE => 49,
            SyscallCode::SYS_NANOSLEEP => 50,
            SyscallCode::SYS_RT_SIGACTION => 51,
            SyscallCode::SYS_RT_SIGPROCMASK => 52,
            SyscallCode::SYS_SIGALTSTACK => 53,
            SyscallCode::SYS_MMAP2 => 54,
            SyscallCode::SYS_FSTAT64 => 55,
            SyscallCode::SYS_MADVISE => 56,
            SyscallCode::SYS_GETTID => 57,
            SyscallCode::SYS_SCHED_GETAFFINITY => 58,
            SyscallCode::SYS_EXT_GROUP => 59,
            SyscallCode::SYS_CLOCK_GETTIME => 60,
            SyscallCode::SYS_OPENAT => 61,
            SyscallCode::SYS_PRLIMIT64 => 62,
            SyscallCode::UNIMPLEMENTED => 63,
        }
    }

    /// The position of the code.
    pub fn index(&self) -> (r: usize)
        ensures
            r == self.ordinal(),
            r < NUM_SYSCALLS,
    {
        match self {
            SyscallCode::HALT => 0,
            SyscallCode::WRITE => 1,
            SyscallCode::ENTER_UNCONSTRAINED => 2,
            SyscallCode::EXIT_UNCONSTRAINED => 3,
            SyscallCode::SHA_EXTEND => 4,
            SyscallCode::SHA_COMPRESS => 5,
            SyscallCode::ED_ADD => 6,
            SyscallCode::ED_DECOMPRESS => 7,
            SyscallCode::KECCAK_SPONGE => 8,
            SyscallCode::SECP256K1_ADD => 9,
            SyscallCode::SECP256K1_DOUBLE => 10,
            SyscallCode::SECP256K1_DECOMPRESS => 11,
            SyscallCode::BN254_ADD => 12,
            SyscallCode::BN254_DOUBLE => 13,
            SyscallCode::COMMIT => 14,
            SyscallCode::COMMIT_DEFERRED_PROOFS => 15,
            SyscallCode::VERIFY_ZKM_PROOF => 16,
            SyscallCode::BLS12381_DECOMPRESS => 17,
            SyscallCode::SYSHINTLEN => 18,
            SyscallCode::SYSHINTREAD => 19,
            SyscallCode::UINT256_MUL => 20,
            SyscallCode::U256XU2048_MUL => 21,
            SyscallCode::BLS12381_ADD => 22,
            SyscallCode::BLS12381_DOUBLE => 23,
            SyscallCode::BLS12381_FP_ADD => 24,
            SyscallCode::BLS12381_FP_SUB => 25,
            SyscallCode::BLS12381_FP_MUL => 26,
            SyscallCode::BLS12381_FP2_ADD => 27,
            SyscallCode::BLS12381_FP2_SUB => 28,
            SyscallCode::BLS12381_FP2_MUL => 29,
            SyscallCode::BN254_FP_ADD => 30,
            SyscallCode::BN254_FP_SUB => 31,
            SyscallCode::BN254_FP_MUL => 32,
            SyscallCode::BN254_FP2_ADD => 33,
            SyscallCode::BN254_FP2_SUB => 34,
            SyscallCode::BN254_FP2_MUL => 35,
            SyscallCode::SECP256R1_ADD => 36,
            SyscallCode::SECP256R1_DOUBLE => 37,
            SyscallCode::SECP256R1_DECOMPRESS => 38,
            SyscallCode::POSEIDON2_PERMUTE => 39,
            SyscallCode::SYS_LINUX => 40,
            SyscallCode::SYS_READ => 41,
            SyscallCode::SYS_WRITE => 42,
            SyscallCode::SYS_OPEN => 43,
            SyscallCode::SYS_CLOSE => 44,
            SyscallCode::SYS_BRK => 45,
            SyscallCode::SYS_FCNTL => 46,
            SyscallCode::SYS_MMAP => 47,
            SyscallCode::SYS_MUNMAP => 48,
            SyscallCode::SYS_CLONE => 49,
            SyscallCode::SYS_NANOSLEEP => 50,
            SyscallCode::SYS_RT_SIGACTION => 51,
            SyscallCode::SYS_RT_SIGPROCMASK => 52,
            SyscallCode::SYS_SIGALTSTACK => 53,
            SyscallCode::SYS_MMAP2 => 54,
            SyscallCode::SYS_FSTAT64 => 55,
            SyscallCode::SYS_MADVISE => 56,
            SyscallCode::SYS_GETTID => 57,
            SyscallCode::SYS_SCHED_GETAFFINITY => 58,
            SyscallCode::SYS_EXT_GROUP => 59,
            SyscallCode::SYS_CLOCK_GETTIME => 60,
            SyscallCode::SYS_OPENAT => 61,
            SyscallCode::SYS_PRLIMIT64 => 62,
            SyscallCode::UNIMPLEMENTED => 63,
        }
    }

    /// The call that a call is counted as: a subtraction counts as an addition.
    pub open spec fn counted_as(self) -> SyscallCode {
        match self {
            SyscallCode::BN254_FP_SUB => SyscallCode::BN254_FP_ADD,
            SyscallCode::BN254_FP2_SUB => SyscallCode::BN254_FP2_ADD,
            SyscallCode::BLS12381_FP_SUB => SyscallCode::BLS12381_FP_ADD,
            SyscallCode::BLS12381_FP2_SUB => SyscallCode::BLS12381_FP2_ADD,
            _ => self,
        }
    }

    /// The call that a call is counted as.
    pub fn count_map(&self) -> (r: SyscallCode)
        ensures
            r == self.counted_as(),
    {
        match self {
            SyscallCode::BN254_FP_SUB => SyscallCode::BN254_FP_ADD,
            SyscallCode::BN254_FP2_SUB => SyscallCode::BN254_FP2_ADD,
            SyscallCode::BLS12381_FP_SUB => SyscallCode::BLS12381_FP_ADD,
            SyscallCode::BLS12381_FP2_SUB => SyscallCode::BLS12381_FP2_ADD,
            _ => *self,
        }
    }

    /// The system call that a number stands for.
    pub open spec fn decode(value: u32) -> SyscallCode {
        match value {
            0x0 => SyscallCode::HALT,
            0x2 => SyscallCode::WRITE,
            0x3 => SyscallCode::ENTER_UNCONSTRAINED,
            0x4 => SyscallCode::EXIT_UNCONSTRAINED,
            0x30010005 => SyscallCode::SHA_EXTEND,
            0x1010006 => SyscallCode::SHA_COMPRESS,
            0x1010007 => SyscallCode::ED_ADD,
            0x10008 => SyscallCode::ED_DECOMPRESS,
            0x1010009 => SyscallCode::KECCAK_SPONGE,
            0x101000A => SyscallCode::SECP256K1_ADD,
            0x1000B => SyscallCode::SECP256K1_DOUBLE,
            0x1000C => SyscallCode::SECP256K1_DECOMPRESS,
            0x101000E => SyscallCode::BN254_ADD,
            0x1000F => SyscallCode::BN254_DOUBLE,
            0x10 => SyscallCode::COMMIT,
            0x1A => SyscallCode::COMMIT_DEFERRED_PROOFS,
            0x1B => SyscallCode::VERIFY_ZKM_PROOF,
            0x1001C => SyscallCode::BLS12381_DECOMPRESS,
            0xF0 => SyscallCode::SYSHINTLEN,
            0xF1 => SyscallCode::SYSHINTREAD,
            0x101001D => SyscallCode::UINT256_MUL,
            0x101002F => SyscallCode::U256XU2048_MUL,
            0x101001E => SyscallCode::BLS12381_ADD,
            0x1001F => SyscallCode::BLS12381_DOUBLE,
            0x1010020 => SyscallCode::BLS12381_FP_ADD,
            0x1010021 => SyscallCode::BLS12381_FP_SUB,
            0x1010022 => SyscallCode::BLS12381_FP_MUL,
            0x1010023 => SyscallCode::BLS12381_FP2_ADD,
            0x1010024 => SyscallCode::BLS12381_FP2_SUB,
            0x1010025 => SyscallCode::BLS12381_FP2_MUL,
            0x1010026 => SyscallCode::BN254_FP_ADD,
            0x1010027 => SyscallCode::BN254_FP_SUB,
            0x1010028 => SyscallCode::BN254_FP_MUL,
            0x1010029 => SyscallCode::BN254_FP2_ADD,
            0x101002A => SyscallCode::BN254_FP2_SUB,
            0x101002B => SyscallCode::BN254_FP2_MUL,
            0x101002C => SyscallCode::SECP256R1_ADD,
            0x1002D => SyscallCode::SECP256R1_DOUBLE,
            0x1002E => SyscallCode::SECP256R1_DECOMPRESS,
            0x10030 => SyscallCode::POSEIDON2_PERMUTE,
            0xFA0 => SyscallCode::SYS_LINUX,
            0xFA3 => SyscallCode::SYS_READ,
            0xFA4 => SyscallCode::SYS_WRITE,
            0xFA5 => SyscallCode::SYS_OPEN,
            0xFA6 => SyscallCode::SYS_CLOSE,
            0xFCD => SyscallCode::SYS_BRK,
            0xFD7 => SyscallCode::SYS_FCNTL,
            0xFFA => SyscallCode::SYS_MMAP,
            0xFFB => SyscallCode::SYS_MUNMAP,
            0x1018 => SyscallCode::SYS_CLONE,
            0x1046 => SyscallCode::SYS_NANOSLEEP,
            0x1062 => SyscallCode::SYS_RT_SIGACTION,
            0x1063 => SyscallCode::SYS_RT_SIGPROCMASK,
            0x106E => SyscallCode::SYS_SIGALTSTACK,
            0x1072 => SyscallCode::SYS_MMAP2,
            0x1077 => SyscallCode::SYS_FSTAT64,
            0x107A => SyscallCode::SYS_MADVISE,
            0x107E => SyscallCode::SYS_GETTID,
            0x1090 => SyscallCode::SYS_SCHED_GETAFFINITY,
            0x1096 => SyscallCode::SYS_EXT_GROUP,
            0x10A7 => SyscallCode::SYS_CLOCK_GETTIME,
            0x10C0 => SyscallCode::SYS_OPENAT,
            0x10F2 => SyscallCode::SYS_PRLIMIT64,
            _ => SyscallCode::UNIMPLEMENTED,
        }
    }

    /// The system call that a number stands for.
    pub fn from_u32(value: u32) -> (r: SyscallCode)
        ensures
            r == Self::decode(value),
    {
        match value {
            0x0 => SyscallCode::HALT,
            0x2 => SyscallCode::WRITE,
            0x3 => SyscallCode::ENTER_UNCONSTRAINED,
            0x4 => SyscallCode::EXIT_UNCONSTRAINED,
            0x30010005 => SyscallCode::SHA_EXTEND,
            0x1010006 => SyscallCode::SHA_COMPRESS,
            0x1010007 => SyscallCode::ED_ADD,
            0x10008 => SyscallCode::ED_DECOMPRESS,
            0x1010009 => SyscallCode::KECCAK_SPONGE,
            0x101000A => SyscallCode::SECP256K1_ADD,
            0x1000B => SyscallCode::SECP256K1_DOUBLE,
            0x1000C => SyscallCode::SECP256K1_DECOMPRESS,
            0x101000E => SyscallCode::BN254_ADD,
            0x1000F => SyscallCode::BN254_DOUBLE,
            0x10 => SyscallCode::COMMIT,
            0x1A => SyscallCode::COMMIT_DEFERRED_PROOFS,
            0x1B => SyscallCode::VERIFY_ZKM_PROOF,
            0x1001C => SyscallCode::BLS12381_DECOMPRESS,
            0xF0 => SyscallCode::SYSHINTLEN,
            0xF1 => SyscallCode::SYSHINTREAD,
            0x101001D => SyscallCode::UINT256_MUL,
            0x101002F => SyscallCode::U256XU2048_MUL,
            0x101001E => SyscallCode::BLS12381_ADD,
            0x1001F => SyscallCode::BLS12381_DOUBLE,
            0x1010020 => SyscallCode::BLS12381_FP_ADD,
            0x1010021 => SyscallCode::BLS12381_FP_SUB,
            0x1010022 => SyscallCode::BLS12381_FP_MUL,
            0x1010023 => SyscallCode::BLS12381_FP2_ADD,
            0x1010024 => SyscallCode::BLS12381_FP2_SUB,
            0x1010025 => SyscallCode::BLS12381_FP2_MUL,
            0x1010026 => SyscallCode::BN254_FP_ADD,
            0x1010027 => SyscallCode::BN254_FP_SUB,
            0x1010028 => SyscallCode::BN254_FP_MUL,
            0x1010029 => SyscallCode::BN254_FP2_ADD,
            0x101002A => SyscallCode::BN254_FP2_SUB,
            0x101002B => SyscallCode::BN254_FP2_MUL,
            0x101002C => SyscallCode::SECP256R1_ADD,
            0x1002D => SyscallCode::SECP256R1_DOUBLE,
            0x1002E => SyscallCode::SECP256R1_DECOMPRESS,
            0x10030 => SyscallCode::POSEIDON2_PERMUTE,
            0xFA0 => SyscallCode::SYS_LINUX,
            0xFA3 => SyscallCode::SYS_READ,
            0xFA4 => SyscallCode::SYS_WRITE,
            0xFA5 => SyscallCode::SYS_OPEN,
            0xFA6 => SyscallCode::SYS_CLOSE,
            0xFCD => SyscallCode::SYS_BRK,
            0xFD7 => SyscallCode::SYS_FCNTL,
            0xFFA => SyscallCode::SYS_MMAP,
            0xFFB => SyscallCode::SYS_MUNMAP,
            0x1018 => SyscallCode::SYS_CLONE,
            0x1046 => SyscallCode::SYS_NANOSLEEP,
            0x1062 => SyscallCode::SYS_RT_SIGACTION,
            0x1063 => SyscallCode::SYS_RT_SIGPROCMASK,
            0x106E => SyscallCode::SYS_SIGALTSTACK,
            0x1072 => SyscallCode::SYS_MMAP2,
            0x1077 => SyscallCode::SYS_FSTAT64,
            0x107A => SyscallCode::SYS_MADVISE,
            0x107E => SyscallCode::SYS_GETTID,
            0x1090 => SyscallCode::SYS_SCHED_GETAFFINITY,
            0x1096 => SyscallCode::SYS_EXT_GROUP,
            0x10A7 => SyscallCode::SYS_CLOCK_GETTIME,
            0x10C0 => SyscallCode::SYS_OPENAT,
            0x10F2 => SyscallCode::SYS_PRLIMIT64,
            _ => SyscallCode::UNIMPLEMENTED,
        }
    }

    /// The name of the call.
    pub open spec fn spelling(self) -> Seq<char> {
        match self {
            SyscallCode::HALT => "HALT"@,
            SyscallCode::WRITE => "WRITE"@,
            SyscallCode::ENTER_UNCONSTRAINED => "ENTER_UNCONSTRAINED"@,
            SyscallCode::EXIT_UNCONSTRAINED => "EXIT_UNCONSTRAINED"@,
            SyscallCode::SHA_EXTEND => "SHA_EXTEND"@,
            SyscallCode::SHA_COMPRESS => "SHA_COMPRESS"@,
            SyscallCode::ED_ADD => "ED_ADD"@,
            SyscallCode::ED_DECOMPRESS => "ED_DECOMPRESS"@,
            SyscallCode::KECCAK_SPONGE => "KECCAK_SPONGE"@,
            SyscallCode::SECP256K1_ADD => "SECP256K1_ADD"@,
            SyscallCode::SECP256K1_DOUBLE => "SECP256K1_DOUBLE"@,
            SyscallCode::SECP256K1_DECOMPRESS => "SECP256K1_DECOMPRESS"@,
            SyscallCode::BN254_ADD => "BN254_ADD"@,
            SyscallCode::BN254_DOUBLE => "BN254_DOUBLE"@,
            SyscallCode::COMMIT => "COMMIT"@,
            SyscallCode::COMMIT_DEFERRED_PROOFS => "COMMIT_DEFERRED_PROOFS"@,
            SyscallCode::VERIFY_ZKM_PROOF => "VERIFY_ZKM_PROOF"@,
            SyscallCode::BLS12381_DECOMPRESS => "BLS12381_DECOMPRESS"@,
            SyscallCode::SYSHINTLEN => "SYSHINTLEN"@,
            SyscallCode::SYSHINTREAD => "SYSHINTREAD"@,
            SyscallCode::UINT256_MUL => "UINT256_MUL"@,
            SyscallCode::U256XU2048_MUL => "U256XU2048_MUL"@,
            SyscallCode::BLS12381_ADD => "BLS12381_ADD"@,
            SyscallCode::BLS12381_DOUBLE => "BLS12381_DOUBLE"@,
            SyscallCode::BLS12381_FP_ADD => "BLS12381_FP_ADD"@,
            SyscallCode::BLS12381_FP_SUB => "BLS12381_FP_SUB"@,
            SyscallCode::BLS12381_FP_MUL => "BLS12381_FP_MUL"@,
            SyscallCode::BLS12381_FP2_ADD => "BLS12381_FP2_ADD"@,
            SyscallCode::BLS12381_FP2_SUB => "BLS12381_FP2_SUB"@,
            SyscallCode::BLS12381_FP2_MUL => "BLS12381_FP2_MUL"@,
            SyscallCode::BN254_FP_ADD => "BN254_FP_ADD"@,
            SyscallCode::BN254_FP_SUB => "BN254_FP_SUB"@,
            SyscallCode::BN254_FP_MUL => "BN254_FP_MUL"@,
            SyscallCode::BN254_FP2_ADD => "BN254_FP2_ADD"@,
            SyscallCode::BN254_FP2_SUB => "BN254_FP2_SUB"@,
            SyscallCode::BN254_FP2_MUL => "BN254_FP2_MUL"@,
            SyscallCode::SECP256R1_ADD => "SECP256R1_ADD"@,
            SyscallCode::SECP256R1_DOUBLE => "SECP256R1_DOUBLE"@,
            SyscallCode::SECP256R1_DECOMPRESS => "SECP256R1_DECOMPRESS"@,
            SyscallCode::POSEIDON2_PERMUTE => "POSEIDON2_PERMUTE"@,
            SyscallCode::SYS_LINUX => "SYS_LINUX"@,
            SyscallCode::SYS_READ => "SYS_READ"@,
            SyscallCode::SYS_WRITE => "SYS_WRITE"@,
            SyscallCode::SYS_OPEN => "SYS_OPEN"@,
            SyscallCode::SYS_CLOSE => "SYS_CLOSE"@,
            SyscallCode::SYS_BRK => "SYS_BRK"@,
            SyscallCode::SYS_FCNTL => "SYS_FCNTL"@,
            SyscallCode::SYS_MMAP => "SYS_MMAP"@,
            SyscallCode::SYS_MUNMAP => "SYS_MUNMAP"@,
            SyscallCode::SYS_CLONE => "SYS_CLONE"@,
            SyscallCode::SYS_NANOSLEEP => "SYS_NANOSLEEP"@,
            SyscallCode::SYS_RT_SIGACTION => "SYS_RT_SIGACTION"@,
            SyscallCode::SYS_RT_SIGPROCMASK => "SYS_RT_SIGPROCMASK"@,
            SyscallCode::SYS_SIGALTSTACK => "SYS_SIGALTSTACK"@,
            SyscallCode::SYS_MMAP2 => "SYS_MMAP2"@,
            SyscallCode::SYS_FSTAT64 => "SYS_FSTAT64"@,
            SyscallCode::SYS_MADVISE => "SYS_MADVISE"@,
            SyscallCode::SYS_GETTID => "SYS_GETTID"@,
            SyscallCode::SYS_SCHED_GETAFFINITY => "SYS_SCHED_GETAFFINITY"@,
            SyscallCode::SYS_EXT_GROUP => "SYS_EXT_GROUP"@,
            SyscallCode::SYS_CLOCK_GETTIME => "SYS_CLOCK_GETTIME"@,
            SyscallCode::SYS_OPENAT => "SYS_OPENAT"@,
            SyscallCode::SYS_PRLIMIT64 => "SYS_PRLIMIT64"@,
            SyscallCode::UNIMPLEMENTED => "UNIMPLEMENTED"@,
        }
    }

    /// The name of the call.
    pub fn name(&self) -> (r: &'static str)
        ensures
            r@ == self.spelling(),
    {
        match self {
            SyscallCode::HALT => "HALT",
            SyscallCode::WRITE => "WRITE",
            SyscallCode::ENTER_UNCONSTRAINED => "ENTER_UNCONSTRAINED",
            SyscallCode::EXIT_UNCONSTRAINED => "EXIT_UNCONSTRAINED",
            SyscallCode::SHA_EXTEND => "SHA_EXTEND",
            SyscallCode::SHA_COMPRESS => "SHA_COMPRESS",
            SyscallCode::ED_ADD => "ED_ADD",
            SyscallCode::ED_DECOMPRESS => "ED_DECOMPRESS",
            SyscallCode::KECCAK_SPONGE => "KECCAK_SPONGE",
            SyscallCode::SECP256K1_ADD => "SECP256K1_ADD",
            SyscallCode::SECP256K1_DOUBLE => "SECP256K1_DOUBLE",
            SyscallCode::SECP256K1_DECOMPRESS => "SECP256K1_DECOMPRESS",
            SyscallCode::BN254_ADD => "BN254_ADD",
            SyscallCode::BN254_DOUBLE => "BN254_DOUBLE",
            SyscallCode::COMMIT => "COMMIT",
            SyscallCode::COMMIT_DEFERRED_PROOFS => "COMMIT_DEFERRED_PROOFS",
            SyscallCode::VERIFY_ZKM_PROOF => "VERIFY_ZKM_PROOF",
            SyscallCode::BLS12381_DECOMPRESS => "BLS12381_DECOMPRESS",
            SyscallCode::SYSHINTLEN => "SYSHINTLEN",
            SyscallCode::SYSHINTREAD => "SYSHINTREAD",
            SyscallCode::UINT256_MUL => "UINT256_MUL",
            SyscallCode::U256XU2048_MUL => "U256XU2048_MUL",
            SyscallCode::BLS12381_ADD => "BLS12381_ADD",
            SyscallCode::BLS12381_DOUBLE => "BLS12381_DOUBLE",
            SyscallCode::BLS12381_FP_ADD => "BLS12381_FP_ADD",
            SyscallCode::BLS12381_FP_SUB => "BLS12381_FP_SUB",
            SyscallCode::BLS12381_FP_MUL => "BLS12381_FP_MUL",
            SyscallCode::BLS12381_FP2_ADD => "BLS12381_FP2_ADD",
            SyscallCode::BLS12381_FP2_SUB => "BLS12381_FP2_SUB",
            SyscallCode::BLS12381_FP2_MUL => "BLS12381_FP2_MUL",
            SyscallCode::BN254_FP_ADD => "BN254_FP_ADD",
            SyscallCode::BN254_FP_SUB => "BN254_FP_SUB",
            SyscallCode::BN254_FP_MUL => "BN254_FP_MUL",
            SyscallCode::BN254_FP2_ADD => "BN254_FP2_ADD",
            SyscallCode::BN254_FP2_SUB => "BN254_FP2_SUB",
            SyscallCode::BN254_FP2_MUL => "BN254_FP2_MUL",
            SyscallCode::SECP256R1_ADD => "SECP256R1_ADD",
            SyscallCode::SECP256R1_DOUBLE => "SECP256R1_DOUBLE",
            SyscallCode::SECP256R1_DECOMPRESS => "SECP256R1_DECOMPRESS",
            SyscallCode::POSEIDON2_PERMUTE => "POSEIDON2_PERMUTE",
            SyscallCode::SYS_LINUX => "SYS_LINUX",
            SyscallCode::SYS_READ => "SYS_READ",
            SyscallCode::SYS_WRITE => "SYS_WRITE",
            SyscallCode::SYS_OPEN => "SYS_OPEN",
            SyscallCode::SYS_CLOSE => "SYS_CLOSE",
            SyscallCode::SYS_BRK => "SYS_BRK",
            SyscallCode::SYS_FCNTL => "SYS_FCNTL",
            SyscallCode::SYS_MMAP => "SYS_MMAP",
            SyscallCode::SYS_MUNMAP => "SYS_MUNMAP",
            SyscallCode::SYS_CLONE => "SYS_CLONE",
            SyscallCode::SYS_NANOSLEEP => "SYS_NANOSLEEP",
            SyscallCode::SYS_RT_SIGACTION => "SYS_RT_SIGACTION",
            SyscallCode::SYS_RT_SIGPROCMASK => "SYS_RT_SIGPROCMASK",
            SyscallCode::SYS_SIGALTSTACK => "SYS_SIGALTSTACK",
            SyscallCode::SYS_MMAP2 => "SYS_MMAP2",
            SyscallCode::SYS_FSTAT64 => "SYS_FSTAT64",
            SyscallCode::SYS_MADVISE => "SYS_MADVISE",
            SyscallCode::SYS_GETTID => "SYS_GETTID",
            SyscallCode::SYS_SCHED_GETAFFINITY => "SYS_SCHED_GETAFFINITY",
            SyscallCode::SYS_EXT_GROUP => "SYS_EXT_GROUP",
            SyscallCode::SYS_CLOCK_GETTIME => "SYS_CLOCK_GETTIME",
            SyscallCode::SYS_OPENAT => "SYS_OPENAT",
            SyscallCode::SYS_PRLIMIT64 => "SYS_PRLIMIT64",
            SyscallCode::UNIMPLEMENTED => "UNIMPLEMENTED",
        }
    }
}

/// Every call is recovered from its number.
pub proof fn syscall_codes_round_trip(c: SyscallCode)
    ensures
        SyscallCode::decode(c.code()) == c,
{
}

/// A number that decodes to a call is the number of that call.
pub proof fn decoded_syscalls_have_their_number(value: u32)
    ensures
        SyscallCode::decode(value) == SyscallCode::UNIMPLEMENTED || SyscallCode::decode(value).code() == value,
{
}

} // verus!
