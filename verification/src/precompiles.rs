//! The arithmetic of precompiled operations: prime fields, their quadratic extensions, elliptic
//! curves and wide integers, all on little-endian lists of words.
use p3_field::PrimeField32;
use p3_koala_bear::{default_koalabear_poseidon2_16, KoalaBear};
use p3_symmetric::Permutation;
use vstd::arithmetic::power;
use vstd::prelude::*;

use crate::bigint;
use crate::bigint::{
    big_add, big_div, big_eq, big_lt, big_modpow, big_mul, big_rem, big_sub, padded,
};
use crate::errors::CurveError;
use crate::syscalls::SyscallCode;

verus! {

/// The base field prime of secp256k1.
pub const SECP256K1_PRIME: [u32; 8] = [
    0xfffffc2f, 0xfffffffe, 0xffffffff, 0xffffffff,
    0xffffffff, 0xffffffff, 0xffffffff, 0xffffffff,
];

/// The base field prime of secp256r1.
pub const SECP256R1_PRIME: [u32; 8] = [
    0xffffffff, 0xffffffff, 0xffffffff, 0x00000000,
    0x00000000, 0x00000000, 0x00000001, 0xffffffff,
];

/// The constant coefficient of secp256r1.
pub const SECP256R1_B: [u32; 8] = [
    0x27d2604b, 0x3bce3c3e, 0xcc53b0f6, 0x651d06b0,
    0x769886bc, 0xb3ebbd55, 0xaa3a93e7, 0x5ac635d8,
];

/// The base field prime of BN254.
pub const BN254_PRIME: [u32; 8] = [
    0xd87cfd47, 0x3c208c16, 0x6871ca8d, 0x97816a91,
    0x8181585d, 0xb85045b6, 0xe131a029, 0x30644e72,
];

/// The base field prime of BLS12-381.
pub const BLS12381_PRIME: [u32; 12] = [
    0xffffaaab, 0xb9feffff, 0xb153ffff, 0x1eabfffe,
    0xf6b0f624, 0x6730d2a0, 0xf38512bf, 0x64774b84,
    0x434bacd7, 0x4b1ba7b6, 0x397fe69a, 0x1a0111ea,
];

/// The base field prime of Ed25519.
pub const ED25519_PRIME: [u32; 8] = [
    0xffffffed, 0xffffffff, 0xffffffff, 0xffffffff,
    0xffffffff, 0xffffffff, 0xffffffff, 0x7fffffff,
];

/// The curve coefficient of Ed25519.
pub const ED25519_D: [u32; 8] = [
    0x135978a3, 0x75eb4dca, 0x4141d8ab, 0x00700a4d,
    0x7779e898, 0x8cc74079, 0x2b6ffe73, 0x52036cee,
];

/// The number of words of a 256-bit integer.
pub const U256_NUM_WORDS: usize = 8;

/// The number of words of a 2048-bit integer.
pub const U2048_NUM_WORDS: usize = 64;

/// The number of words of a Poseidon2 state.
pub const POSEIDON2_STATE_SIZE: usize = 16;

/// A field operation.
#[derive(Clone, Copy, Debug, PartialEq, Eq, Structural)]
pub enum FieldOperation {
    Add,
    Sub,
    Mul,
}

/// A prime field.
#[derive(Clone, Copy, Debug, PartialEq, Eq, Structural)]
pub enum Field {
    Secp256k1,
    Secp256r1,
    Bn254,
    Bls12381,
    Ed25519,
}

/// The words of an array as a list.
fn listed<const N: usize>(words: &[u32; N]) -> (r: Vec<u32>)
    ensures
        r@ == words@,
{
    let mut r: Vec<u32> = Vec::new();
    let mut i: usize = 0;
    while i < N
        invariant
            i <= N,
            words@.len() == N,
            r@ == words@.take(i as int),
        decreases N - i,
    {
        r.push(words[i]);
        proof {
            assert(words@.take(i + 1) =~= words@.take(i as int).push(words@[i as int]));
        }
        i = i + 1;
    }
    proof {
        assert(words@.take(N as int) =~= words@);
    }
    r
}

impl Field {
    /// The prime as a list of words.
    pub open spec fn prime_words(self) -> Seq<u32> {
        match self {
            Field::Secp256k1 => SECP256K1_PRIME@,
            Field::Secp256r1 => SECP256R1_PRIME@,
            Field::Bn254 => BN254_PRIME@,
            Field::Bls12381 => BLS12381_PRIME@,
            Field::Ed25519 => ED25519_PRIME@,
        }
    }

    /// The prime.
    pub open spec fn prime(self) -> nat {
        bigint::value(self.prime_words())
    }

    /// The number of words of an element.
    pub open spec fn width(self) -> nat {
        if self is Bls12381 {
            12
        } else {
            8
        }
    }

    /// The number of words of an element.
    pub fn words(&self) -> (r: usize)
        ensures
            r == self.width(),
    {
        match self {
            Field::Bls12381 => 12,
            _ => 8,
        }
    }

    /// The prime.
    pub fn modulus(&self) -> (r: Vec<u32>)
        ensures
            r@ == self.prime_words(),
            bigint::value(r@) == self.prime(),
            self.prime() > 3,
            self.prime() < power::pow(bigint::BASE as int, self.width()),
    {
        proof {
            self.lemma_prime();
        }
        match self {
            Field::Secp256k1 => listed(&SECP256K1_PRIME),
            Field::Secp256r1 => listed(&SECP256R1_PRIME),
            Field::Bn254 => listed(&BN254_PRIME),
            Field::Bls12381 => listed(&BLS12381_PRIME),
            Field::Ed25519 => listed(&ED25519_PRIME),
        }
    }

    /// The prime exceeds three and fits the element width.
    pub proof fn lemma_prime(self)
        ensures
            self.prime() > 3,
            self.prime() < power::pow(bigint::BASE as int, self.width()),
    {
        bigint::lemma_value_bound(self.prime_words());
    }

    /// The linear coefficient of the short Weierstrass curve over the field.
    pub open spec fn linear(self) -> nat {
        if self is Secp256r1 {
            (self.prime() - 3) as nat
        } else {
            0
        }
    }

    /// The constant coefficient of the short Weierstrass curve over the field, for the curves
    /// whose points are decompressed.
    pub open spec fn constant(self) -> nat {
        match self {
            Field::Secp256k1 => 7,
            Field::Secp256r1 => bigint::value(SECP256R1_B@),
            Field::Bls12381 => 4,
            _ => 0,
        }
    }
}

/// The sum modulo `p`.
pub open spec fn add_mod(a: nat, b: nat, p: nat) -> nat {
    (a + b) % p
}

/// The difference modulo `p`.
pub open spec fn sub_mod(a: nat, b: nat, p: nat) -> nat {
    (a + (p - b % p) as nat) % p
}

/// The product modulo `p`.
pub open spec fn mul_mod(a: nat, b: nat, p: nat) -> nat {
    (a * b) % p
}

/// The power modulo `p`.
pub open spec fn pow_mod(a: nat, e: nat, p: nat) -> nat {
    (power::pow(a as int, e) % (p as int)) as nat
}

/// The inverse modulo a prime `p` by Fermat's theorem; zero for multiples of `p`.
pub open spec fn inv_mod(a: nat, p: nat) -> nat {
    pow_mod(a, (p - 2) as nat, p)
}

/// The result of a field operation.
pub open spec fn field_result(op: FieldOperation, a: nat, b: nat, p: nat) -> nat {
    match op {
        FieldOperation::Add => add_mod(a, b, p),
        FieldOperation::Sub => sub_mod(a, b, p),
        FieldOperation::Mul => mul_mod(a, b, p),
    }
}

/// The result of an operation of the quadratic extension by a square root of minus one.
pub open spec fn extension_result(
    op: FieldOperation,
    a: (nat, nat),
    b: (nat, nat),
    p: nat,
) -> (nat, nat) {
    match op {
        FieldOperation::Add => (add_mod(a.0, b.0, p), add_mod(a.1, b.1, p)),
        FieldOperation::Sub => (sub_mod(a.0, b.0, p), sub_mod(a.1, b.1, p)),
        FieldOperation::Mul => (
            sub_mod(mul_mod(a.0, b.0, p), mul_mod(a.1, b.1, p), p),
            add_mod(mul_mod(a.0, b.1, p), mul_mod(a.1, b.0, p), p),
        ),
    }
}

/// The third point of the line with slope `s` through two points, reflected.
pub open spec fn chord(s: nat, a: (nat, nat), b: (nat, nat), p: nat) -> (nat, nat) {
    let x = sub_mod(sub_mod(mul_mod(s, s, p), a.0, p), b.0, p);
    (x, sub_mod(mul_mod(s, sub_mod(a.0, x, p), p), a.1, p))
}

/// The sum of two points of a short Weierstrass curve, by the chord through them.
pub open spec fn curve_sum(a: (nat, nat), b: (nat, nat), p: nat) -> (nat, nat) {
    let s = mul_mod(sub_mod(b.1, a.1, p), inv_mod(sub_mod(b.0, a.0, p), p), p);
    chord(s, a, b, p)
}

/// The double of a point of a short Weierstrass curve, by its tangent.
pub open spec fn curve_double(a: (nat, nat), linear: nat, p: nat) -> (nat, nat) {
    let s = mul_mod(
        add_mod(mul_mod(3, mul_mod(a.0, a.0, p), p), linear, p),
        inv_mod(mul_mod(2, a.1, p), p),
        p,
    );
    chord(s, a, a, p)
}

/// The sum of two points of the twisted Edwards curve.
pub open spec fn edwards_sum(a: (nat, nat), b: (nat, nat), d: nat, p: nat) -> (nat, nat) {
    let t = mul_mod(d, mul_mod(mul_mod(a.0, b.0, p), mul_mod(a.1, b.1, p), p), p);
    (
        mul_mod(
            add_mod(mul_mod(a.0, b.1, p), mul_mod(a.1, b.0, p), p),
            inv_mod(add_mod(1, t, p), p),
            p,
        ),
        mul_mod(
            add_mod(mul_mod(a.1, b.1, p), mul_mod(a.0, b.0, p), p),
            inv_mod(sub_mod(1, t, p), p),
            p,
        ),
    )
}

/// The point that a list of words holds, its abscissa first.
pub open spec fn point(words: Seq<u32>, n: nat) -> (nat, nat) {
    (
        bigint::value(words.take(n as int)),
        bigint::value(words.skip(n as int)),
    )
}

/// The words of a point.
pub open spec fn point_words(a: (nat, nat), n: nat) -> Seq<u32> {
    bigint::words_of(a.0, n) + bigint::words_of(a.1, n)
}

/// Of a square root and its negation, the one that the sign asks for: on BLS12-381 the larger one
/// if the sign is set, on the other curves the odd one if the sign is set.
pub open spec fn root_of_sign(field: Field, y: nat, sign: u32) -> nat {
    let p = field.prime();
    let set = if field is Bls12381 {
        2 * y > p
    } else {
        y % 2 == 1
    };
    if set == (sign != 0) {
        y
    } else {
        sub_mod(0, y, p)
    }
}

/// The right-hand side of the short Weierstrass equation.
pub open spec fn curve_rhs(field: Field, x: nat) -> nat {
    let p = field.prime();
    add_mod(
        add_mod(mul_mod(mul_mod(x, x, p), x, p), mul_mod(field.linear(), x, p), p),
        field.constant(),
        p,
    )
}

/// The ordinate of the point with the given abscissa and sign. The primes of the curves are three
/// modulo four, so a square root is a power.
pub open spec fn decompressed(field: Field, x: nat, sign: u32) -> Result<nat, CurveError> {
    let p = field.prime();
    let rhs = curve_rhs(field, x);
    let y = pow_mod(rhs, ((p + 1) / 4) as nat, p);
    if x >= p || mul_mod(y, y, p) != rhs {
        Err(CurveError::InvalidPoint)
    } else {
        Ok(root_of_sign(field, y, sign))
    }
}

/// A square root of minus one in the field of Ed25519.
pub open spec fn edwards_unit() -> nat {
    let p = Field::Ed25519.prime();
    pow_mod(2, ((p - 1) / 4) as nat, p)
}

/// The abscissa of the Edwards point with the given ordinate and sign.
pub open spec fn edwards_decompressed(y: nat, sign: u32) -> Result<nat, CurveError> {
    let p = Field::Ed25519.prime();
    let d = bigint::value(ED25519_D@);
    let yy = mul_mod(y, y, p);
    let w = mul_mod(
        sub_mod(yy, 1, p),
        inv_mod(add_mod(mul_mod(d, yy, p), 1, p), p),
        p,
    );
    let c = pow_mod(w, ((p + 3) / 8) as nat, p);
    let e = mul_mod(c, edwards_unit(), p);
    if mul_mod(c, c, p) == w {
        Ok(root_of_sign(Field::Ed25519, c, sign))
    } else if mul_mod(e, e, p) == w {
        Ok(root_of_sign(Field::Ed25519, e, sign))
    } else {
        Err(CurveError::InvalidPoint)
    }
}

/// The 256-bit words of an ordinate without the sign bit.
pub open spec fn unsigned_ordinate(words: Seq<u32>) -> Seq<u32> {
    words.update(7, words[7] & 0x7fff_ffff)
}

/// The width-16 Poseidon2 permutation of the KoalaBear field.
pub uninterp spec fn poseidon2_permuted(state: Seq<u32>) -> Seq<u32>;

/// `p3_koala_bear::default_koalabear_poseidon2_16` and its `permute`: the permuted state, in
/// canonical form, is a function of the state alone and has its length.
#[verifier::external_body]
fn poseidon2_permute(state: &Vec<u32>) -> (r: Vec<u32>)
    requires
        state@.len() == 16,
    ensures
        r@ == poseidon2_permuted(state@),
        r@.len() == 16,
{
    let mut lanes = [KoalaBear::new(0); 16];
    for i in 0..16 {
        lanes[i] = KoalaBear::new(state[i]);
    }
    let out = default_koalabear_poseidon2_16().permute(lanes);
    out.iter().map(|x| x.as_canonical_u32()).collect()
}

/// A precompiled operation.
#[derive(Clone, Copy, Debug, PartialEq, Eq, Structural)]
pub enum Precompile {
    EcAdd(Field),
    EcDouble(Field),
    EcDecompress(Field),
    EdAdd,
    EdDecompress,
    Fp(Field, FieldOperation),
    Fp2(Field, FieldOperation),
    Uint256Mul,
    U256xU2048Mul,
    Poseidon2,
}

/// How a precompiled operation uses memory.
#[derive(Clone, Copy, Debug, PartialEq, Eq, Structural)]
pub enum Shape {
    /// Replaces the operand at the first pointer, using the one at the second.
    Binary,
    /// Replaces the operand at the first pointer.
    Unary,
    /// Reads a coordinate after the first pointer and writes the other one there.
    Decompress,
    /// Multiplies modulo the number that follows the second operand.
    Modular,
    /// Multiplies into two results.
    Wide,
}

impl Precompile {
    /// The operation of a system call, if it is a precompiled one.
    pub open spec fn of(code: SyscallCode) -> Option<Precompile> {
        match code {
            SyscallCode::SECP256K1_ADD => Some(Precompile::EcAdd(Field::Secp256k1)),
            SyscallCode::SECP256R1_ADD => Some(Precompile::EcAdd(Field::Secp256r1)),
            SyscallCode::BN254_ADD => Some(Precompile::EcAdd(Field::Bn254)),
            SyscallCode::BLS12381_ADD => Some(Precompile::EcAdd(Field::Bls12381)),
            SyscallCode::SECP256K1_DOUBLE => Some(Precompile::EcDouble(Field::Secp256k1)),
            SyscallCode::SECP256R1_DOUBLE => Some(Precompile::EcDouble(Field::Secp256r1)),
            SyscallCode::BN254_DOUBLE => Some(Precompile::EcDouble(Field::Bn254)),
            SyscallCode::BLS12381_DOUBLE => Some(Precompile::EcDouble(Field::Bls12381)),
            SyscallCode::SECP256K1_DECOMPRESS => Some(Precompile::EcDecompress(Field::Secp256k1)),
            SyscallCode::SECP256R1_DECOMPRESS => Some(Precompile::EcDecompress(Field::Secp256r1)),
            SyscallCode::BLS12381_DECOMPRESS => Some(Precompile::EcDecompress(Field::Bls12381)),
            SyscallCode::ED_ADD => Some(Precompile::EdAdd),
            SyscallCode::ED_DECOMPRESS => Some(Precompile::EdDecompress),
            SyscallCode::BN254_FP_ADD => Some(Precompile::Fp(Field::Bn254, FieldOperation::Add)),
            SyscallCode::BN254_FP_SUB => Some(Precompile::Fp(Field::Bn254, FieldOperation::Sub)),
            SyscallCode::BN254_FP_MUL => Some(Precompile::Fp(Field::Bn254, FieldOperation::Mul)),
            SyscallCode::BLS12381_FP_ADD => Some(
                Precompile::Fp(Field::Bls12381, FieldOperation::Add),
            ),
            SyscallCode::BLS12381_FP_SUB => Some(
                Precompile::Fp(Field::Bls12381, FieldOperation::Sub),
            ),
            SyscallCode::BLS12381_FP_MUL => Some(
                Precompile::Fp(Field::Bls12381, FieldOperation::Mul),
            ),
            SyscallCode::BN254_FP2_ADD => Some(Precompile::Fp2(Field::Bn254, FieldOperation::Add)),
            SyscallCode::BN254_FP2_SUB => Some(Precompile::Fp2(Field::Bn254, FieldOperation::Sub)),
            SyscallCode::BN254_FP2_MUL => Some(Precompile::Fp2(Field::Bn254, FieldOperation::Mul)),
            SyscallCode::BLS12381_FP2_ADD => Some(
                Precompile::Fp2(Field::Bls12381, FieldOperation::Add),
            ),
            SyscallCode::BLS12381_FP2_SUB => Some(
                Precompile::Fp2(Field::Bls12381, FieldOperation::Sub),
            ),
            SyscallCode::BLS12381_FP2_MUL => Some(
                Precompile::Fp2(Field::Bls12381, FieldOperation::Mul),
            ),
            SyscallCode::UINT256_MUL => Some(Precompile::Uint256Mul),
            SyscallCode::U256XU2048_MUL => Some(Precompile::U256xU2048Mul),
            SyscallCode::POSEIDON2_PERMUTE => Some(Precompile::Poseidon2),
            _ => None,
        }
    }

    /// The operation of a system call, if it is a precompiled one.
    pub fn of_code(code: SyscallCode) -> (r: Option<Precompile>)
        ensures
            r == Self::of(code),
    {
        match code {
            SyscallCode::SECP256K1_ADD => Some(Precompile::EcAdd(Field::Secp256k1)),
            SyscallCode::SECP256R1_ADD => Some(Precompile::EcAdd(Field::Secp256r1)),
            SyscallCode::BN254_ADD => Some(Precompile::EcAdd(Field::Bn254)),
            SyscallCode::BLS12381_ADD => Some(Precompile::EcAdd(Field::Bls12381)),
            SyscallCode::SECP256K1_DOUBLE => Some(Precompile::EcDouble(Field::Secp256k1)),
            SyscallCode::SECP256R1_DOUBLE => Some(Precompile::EcDouble(Field::Secp256r1)),
            SyscallCode::BN254_DOUBLE => Some(Precompile::EcDouble(Field::Bn254)),
            SyscallCode::BLS12381_DOUBLE => Some(Precompile::EcDouble(Field::Bls12381)),
            SyscallCode::SECP256K1_DECOMPRESS => Some(Precompile::EcDecompress(Field::Secp256k1)),
            SyscallCode::SECP256R1_DECOMPRESS => Some(Precompile::EcDecompress(Field::Secp256r1)),
            SyscallCode::BLS12381_DECOMPRESS => Some(Precompile::EcDecompress(Field::Bls12381)),
            SyscallCode::ED_ADD => Some(Precompile::EdAdd),
            SyscallCode::ED_DECOMPRESS => Some(Precompile::EdDecompress),
            SyscallCode::BN254_FP_ADD => Some(Precompile::Fp(Field::Bn254, FieldOperation::Add)),
            SyscallCode::BN254_FP_SUB => Some(Precompile::Fp(Field::Bn254, FieldOperation::Sub)),
            SyscallCode::BN254_FP_MUL => Some(Precompile::Fp(Field::Bn254, FieldOperation::Mul)),
            SyscallCode::BLS12381_FP_ADD => Some(
                Precompile::Fp(Field::Bls12381, FieldOperation::Add),
            ),
            SyscallCode::BLS12381_FP_SUB => Some(
                Precompile::Fp(Field::Bls12381, FieldOperation::Sub),
            ),
            SyscallCode::BLS12381_FP_MUL => Some(
                Precompile::Fp(Field::Bls12381, FieldOperation::Mul),
            ),
            SyscallCode::BN254_FP2_ADD => Some(Precompile::Fp2(Field::Bn254, FieldOperation::Add)),
            SyscallCode::BN254_FP2_SUB => Some(Precompile::Fp2(Field::Bn254, FieldOperation::Sub)),
            SyscallCode::BN254_FP2_MUL => Some(Precompile::Fp2(Field::Bn254, FieldOperation::Mul)),
            SyscallCode::BLS12381_FP2_ADD => Some(
                Precompile::Fp2(Field::Bls12381, FieldOperation::Add),
            ),
            SyscallCode::BLS12381_FP2_SUB => Some(
                Precompile::Fp2(Field::Bls12381, FieldOperation::Sub),
            ),
            SyscallCode::BLS12381_FP2_MUL => Some(
                Precompile::Fp2(Field::Bls12381, FieldOperation::Mul),
            ),
            SyscallCode::UINT256_MUL => Some(Precompile::Uint256Mul),
            SyscallCode::U256XU2048_MUL => Some(Precompile::U256xU2048Mul),
            SyscallCode::POSEIDON2_PERMUTE => Some(Precompile::Poseidon2),
            _ => None,
        }
    }

    /// How the operation uses memory.
    pub open spec fn shape(self) -> Shape {
        match self {
            Precompile::EcAdd(_) | Precompile::EdAdd | Precompile::Fp(_, _) | Precompile::Fp2(_, _) => {
                Shape::Binary
            },
            Precompile::EcDouble(_) | Precompile::Poseidon2 => Shape::Unary,
            Precompile::EcDecompress(_) | Precompile::EdDecompress => Shape::Decompress,
            Precompile::Uint256Mul => Shape::Modular,
            Precompile::U256xU2048Mul => Shape::Wide,
        }
    }

    /// How the operation uses memory.
    pub fn memory_shape(&self) -> (r: Shape)
        ensures
            r == self.shape(),
    {
        match self {
            Precompile::EcAdd(_) | Precompile::EdAdd | Precompile::Fp(_, _) | Precompile::Fp2(_, _) => {
                Shape::Binary
            },
            Precompile::EcDouble(_) | Precompile::Poseidon2 => Shape::Unary,
            Precompile::EcDecompress(_) | Precompile::EdDecompress => Shape::Decompress,
            Precompile::Uint256Mul => Shape::Modular,
            Precompile::U256xU2048Mul => Shape::Wide,
        }
    }

    /// The number of words of the operand that the operation replaces, or of the coordinate that
    /// it reads.
    pub open spec fn width(self) -> nat {
        match self {
            Precompile::EcAdd(f) | Precompile::EcDouble(f) | Precompile::Fp2(f, _) => 2 * f.width(),
            Precompile::EdAdd => 16,
            Precompile::EcDecompress(f) | Precompile::Fp(f, _) => f.width(),
            Precompile::EdDecompress | Precompile::Uint256Mul => 8,
            Precompile::U256xU2048Mul => 64,
            Precompile::Poseidon2 => 16,
        }
    }

    /// The number of words of the operand that the operation replaces, or of the coordinate that
    /// it reads.
    pub fn num_words(&self) -> (r: usize)
        ensures
            r == self.width(),
            8 <= r <= 64,
    {
        match self {
            Precompile::EcAdd(f) | Precompile::EcDouble(f) | Precompile::Fp2(f, _) => 2 * f.words(),
            Precompile::EdAdd => 16,
            Precompile::EcDecompress(f) | Precompile::Fp(f, _) => f.words(),
            Precompile::EdDecompress | Precompile::Uint256Mul => 8,
            Precompile::U256xU2048Mul => 64,
            Precompile::Poseidon2 => 16,
        }
    }

    /// What a binary operation leaves in place of `x`.
    pub open spec fn binary(self, x: Seq<u32>, y: Seq<u32>) -> Seq<u32> {
        match self {
            Precompile::EcAdd(f) => point_words(
                curve_sum(point(x, f.width()), point(y, f.width()), f.prime()),
                f.width(),
            ),
            Precompile::EdAdd => point_words(
                edwards_sum(
                    point(x, 8),
                    point(y, 8),
                    bigint::value(ED25519_D@),
                    Field::Ed25519.prime(),
                ),
                8,
            ),
            Precompile::Fp2(f, op) => point_words(
                extension_result(op, point(x, f.width()), point(y, f.width()), f.prime()),
                f.width(),
            ),
            Precompile::Fp(f, op) => bigint::words_of(
                field_result(op, bigint::value(x), bigint::value(y), f.prime()),
                f.width(),
            ),
            _ => x,
        }
    }

    /// What a unary operation leaves in place of `x`.
    pub open spec fn unary(self, x: Seq<u32>) -> Seq<u32> {
        match self {
            Precompile::EcDouble(f) => point_words(
                curve_double(point(x, f.width()), f.linear(), f.prime()),
                f.width(),
            ),
            Precompile::Poseidon2 => poseidon2_permuted(x),
            _ => x,
        }
    }

    /// The coordinate that a decompression computes.
    pub open spec fn coordinate(self, x: Seq<u32>, sign: u32) -> Result<Seq<u32>, CurveError> {
        match self {
            Precompile::EcDecompress(f) => match decompressed(f, bigint::value(x), sign) {
                Ok(y) => Ok(bigint::words_of(y, f.width())),
                Err(e) => Err(e),
            },
            _ => match edwards_decompressed(bigint::value(unsigned_ordinate(x)), sign) {
                Ok(y) => Ok(bigint::words_of(y, 8)),
                Err(e) => Err(e),
            },
        }
    }
}

/// The product of two 256-bit integers modulo a third, zero standing for `2^256`.
pub open spec fn modular_product(x: Seq<u32>, y: Seq<u32>, modulus: Seq<u32>) -> Seq<u32> {
    let m = bigint::value(modulus);
    let product = bigint::value(x) * bigint::value(y);
    if m == 0 {
        bigint::words_of(product, 8)
    } else {
        bigint::words_of(product % m, 8)
    }
}

/// The low 2048 and the high 256 bits of a product.
pub open spec fn wide_product(a: Seq<u32>, b: Seq<u32>) -> (Seq<u32>, Seq<u32>) {
    let all = bigint::words_of(bigint::value(a) * bigint::value(b), 72);
    (all.take(64), all.skip(64))
}

/// The number of a small word as a list.
fn small(x: u32) -> (r: Vec<u32>)
    ensures
        bigint::value(r@) == x,
{
    proof {
        reveal_with_fuel(bigint::value, 3);
    }
    let mut r: Vec<u32> = Vec::new();
    r.push(x);
    r
}

/// The sum modulo `p`.
fn fadd(a: &Vec<u32>, b: &Vec<u32>, p: &Vec<u32>) -> (r: Vec<u32>)
    requires
        bigint::value(p@) > 1,
    ensures
        bigint::value(r@) == add_mod(
            bigint::value(a@),
            bigint::value(b@),
            bigint::value(p@),
        ),
        bigint::trimmed(r@),
        bigint::value(r@) < bigint::value(p@),
{
    big_rem(&big_add(a, b), p)
}

/// The difference modulo `p`.
fn fsub(a: &Vec<u32>, b: &Vec<u32>, p: &Vec<u32>) -> (r: Vec<u32>)
    requires
        bigint::value(p@) > 1,
    ensures
        bigint::value(r@) == sub_mod(
            bigint::value(a@),
            bigint::value(b@),
            bigint::value(p@),
        ),
        bigint::trimmed(r@),
        bigint::value(r@) < bigint::value(p@),
{
    let reduced: Vec<u32> = big_rem(b, p);
    big_rem(&big_add(a, &big_sub(p, &reduced)), p)
}

/// The product modulo `p`.
fn fmul(a: &Vec<u32>, b: &Vec<u32>, p: &Vec<u32>) -> (r: Vec<u32>)
    requires
        bigint::value(p@) > 1,
    ensures
        bigint::value(r@) == mul_mod(
            bigint::value(a@),
            bigint::value(b@),
            bigint::value(p@),
        ),
        bigint::trimmed(r@),
        bigint::value(r@) < bigint::value(p@),
{
    big_rem(&big_mul(a, b), p)
}

/// The power modulo `p`.
fn fpow(a: &Vec<u32>, e: &Vec<u32>, p: &Vec<u32>) -> (r: Vec<u32>)
    requires
        bigint::value(p@) > 1,
    ensures
        bigint::value(r@) == pow_mod(
            bigint::value(a@),
            bigint::value(e@),
            bigint::value(p@),
        ),
        bigint::trimmed(r@),
        bigint::value(r@) < bigint::value(p@),
{
    big_modpow(a, e, p)
}

/// The inverse modulo a prime.
fn finv(a: &Vec<u32>, p: &Vec<u32>) -> (r: Vec<u32>)
    requires
        bigint::value(p@) > 1,
    ensures
        bigint::value(r@) == inv_mod(bigint::value(a@), bigint::value(p@)),
{
    fpow(a, &big_sub(p, &small(2)), p)
}

/// The result of a field operation.
fn fop(op: FieldOperation, a: &Vec<u32>, b: &Vec<u32>, p: &Vec<u32>) -> (r: Vec<u32>)
    requires
        bigint::value(p@) > 1,
    ensures
        bigint::value(r@) == field_result(
            op,
            bigint::value(a@),
            bigint::value(b@),
            bigint::value(p@),
        ),
        bigint::trimmed(r@),
        bigint::value(r@) < bigint::value(p@),
{
    match op {
        FieldOperation::Add => fadd(a, b, p),
        FieldOperation::Sub => fsub(a, b, p),
        FieldOperation::Mul => fmul(a, b, p),
    }
}

/// A pair of numbers as lists of words.
struct Pair {
    x: Vec<u32>,
    y: Vec<u32>,
}

impl Pair {
    /// The two numbers.
    spec fn at(&self) -> (nat, nat) {
        (bigint::value(self.x@), bigint::value(self.y@))
    }

    /// Both numbers are reduced.
    spec fn below(&self, p: nat) -> bool {
        &&& bigint::trimmed(self.x@)
        &&& bigint::trimmed(self.y@)
        &&& self.at().0 < p
        &&& self.at().1 < p
    }
}

/// The first `n` words and the rest.
fn split_point(words: &Vec<u32>, n: usize) -> (r: Pair)
    requires
        n <= words@.len(),
    ensures
        r.at() == point(words@, n as nat),
{
    let mut x: Vec<u32> = Vec::new();
    let mut y: Vec<u32> = Vec::new();
    let mut i: usize = 0;
    while i < words.len()
        invariant
            i <= words@.len(),
            n <= words@.len(),
            i <= n ==> x@ == words@.take(i as int) && y@ =~= Seq::<u32>::empty(),
            i > n ==> x@ == words@.take(n as int) && y@ == words@.subrange(n as int, i as int),
        decreases words@.len() - i,
    {
        if i < n {
            x.push(words[i]);
            proof {
                assert(words@.take(i + 1) =~= words@.take(i as int).push(words@[i as int]));
            }
        } else {
            proof {
                assert(words@.subrange(n as int, i as int).push(words@[i as int]) =~= words@.subrange(
                    n as int,
                    i + 1,
                ));
            }
            y.push(words[i]);
        }
        i = i + 1;
    }
    proof {
        assert(words@.subrange(n as int, words@.len() as int) =~= words@.skip(n as int));
        if n == words@.len() {
            assert(words@.skip(n as int) =~= Seq::<u32>::empty());
        }
    }
    Pair { x, y }
}

/// The words of a pair of reduced numbers.
fn join_point(a: Pair, n: usize, p: &Vec<u32>) -> (r: Vec<u32>)
    requires
        a.below(bigint::value(p@)),
        bigint::value(p@) < power::pow(bigint::BASE as int, n as nat),
    ensures
        r@ == point_words(a.at(), n as nat),
{
    let mut r: Vec<u32> = padded(a.x, n);
    let mut y: Vec<u32> = padded(a.y, n);
    r.append(&mut y);
    r
}

/// The third point of a line through two points, reflected.
fn ec_chord(s: &Vec<u32>, a: &Pair, b: &Pair, p: &Vec<u32>) -> (r: Pair)
    requires
        bigint::value(p@) > 1,
    ensures
        r.at() == chord(bigint::value(s@), a.at(), b.at(), bigint::value(p@)),
        r.below(bigint::value(p@)),
{
    let x: Vec<u32> = fsub(&fsub(&fmul(s, s, p), &a.x, p), &b.x, p);
    let y: Vec<u32> = fsub(&fmul(s, &fsub(&a.x, &x, p), p), &a.y, p);
    Pair { x, y }
}

/// The sum of two points of a short Weierstrass curve.
fn ec_add(a: &Pair, b: &Pair, p: &Vec<u32>) -> (r: Pair)
    requires
        bigint::value(p@) > 1,
    ensures
        r.at() == curve_sum(a.at(), b.at(), bigint::value(p@)),
        r.below(bigint::value(p@)),
{
    let s: Vec<u32> = fmul(&fsub(&b.y, &a.y, p), &finv(&fsub(&b.x, &a.x, p), p), p);
    ec_chord(&s, a, b, p)
}

/// The double of a point of a short Weierstrass curve.
fn ec_double(a: &Pair, linear: &Vec<u32>, p: &Vec<u32>) -> (r: Pair)
    requires
        bigint::value(p@) > 1,
    ensures
        r.at() == curve_double(a.at(), bigint::value(linear@), bigint::value(p@)),
        r.below(bigint::value(p@)),
{
    let tangent: Vec<u32> = fadd(&fmul(&small(3), &fmul(&a.x, &a.x, p), p), linear, p);
    let s: Vec<u32> = fmul(&tangent, &finv(&fmul(&small(2), &a.y, p), p), p);
    ec_chord(&s, a, a, p)
}

/// The sum of two points of the twisted Edwards curve.
fn ed_add(a: &Pair, b: &Pair, d: &Vec<u32>, p: &Vec<u32>) -> (r: Pair)
    requires
        bigint::value(p@) > 1,
    ensures
        r.at() == edwards_sum(a.at(), b.at(), bigint::value(d@), bigint::value(p@)),
        r.below(bigint::value(p@)),
{
    let t: Vec<u32> = fmul(d, &fmul(&fmul(&a.x, &b.x, p), &fmul(&a.y, &b.y, p), p), p);
    let x: Vec<u32> = fmul(
        &fadd(&fmul(&a.x, &b.y, p), &fmul(&a.y, &b.x, p), p),
        &finv(&fadd(&small(1), &t, p), p),
        p,
    );
    let y: Vec<u32> = fmul(
        &fadd(&fmul(&a.y, &b.y, p), &fmul(&a.x, &b.x, p), p),
        &finv(&fsub(&small(1), &t, p), p),
        p,
    );
    Pair { x, y }
}

/// The result of an operation of the quadratic extension.
fn fp2_op(op: FieldOperation, a: &Pair, b: &Pair, p: &Vec<u32>) -> (r: Pair)
    requires
        bigint::value(p@) > 1,
    ensures
        r.at() == extension_result(op, a.at(), b.at(), bigint::value(p@)),
        r.below(bigint::value(p@)),
{
    match op {
        FieldOperation::Add => Pair { x: fadd(&a.x, &b.x, p), y: fadd(&a.y, &b.y, p) },
        FieldOperation::Sub => Pair { x: fsub(&a.x, &b.x, p), y: fsub(&a.y, &b.y, p) },
        FieldOperation::Mul => Pair {
            x: fsub(&fmul(&a.x, &b.x, p), &fmul(&a.y, &b.y, p), p),
            y: fadd(&fmul(&a.x, &b.y, p), &fmul(&a.y, &b.x, p), p),
        },
    }
}

/// Of a square root and its negation, the one that the sign asks for.
fn pick_root(field: Field, y: Vec<u32>, sign: u32) -> (r: Vec<u32>)
    requires
        bigint::trimmed(y@),
        bigint::value(y@) < field.prime(),
    ensures
        bigint::value(r@) == root_of_sign(field, bigint::value(y@), sign),
        bigint::trimmed(r@),
        bigint::value(r@) < field.prime(),
{
    let p: Vec<u32> = field.modulus();
    let set: bool = match field {
        Field::Bls12381 => big_lt(&p, &big_mul(&small(2), &y)),
        _ => big_eq(&big_rem(&y, &small(2)), &small(1)),
    };
    if set == (sign != 0) {
        y
    } else {
        fsub(&small(0), &y, &p)
    }
}

/// Computes the ordinate of a point from its abscissa and sign.
fn ec_decompress(field: Field, x: &Vec<u32>, sign: u32) -> (r: Result<Vec<u32>, CurveError>)
    ensures
        match (r, decompressed(field, bigint::value(x@), sign)) {
            (Ok(y), Ok(expected)) => bigint::value(y@) == expected && bigint::trimmed(
                y@,
            ) && expected < field.prime(),
            (Err(e), Err(expected)) => e == expected,
            _ => false,
        },
{
    let p: Vec<u32> = field.modulus();
    let linear: Vec<u32> = match field {
        Field::Secp256r1 => big_sub(&p, &small(3)),
        _ => small(0),
    };
    let constant: Vec<u32> = match field {
        Field::Secp256k1 => small(7),
        Field::Secp256r1 => listed(&SECP256R1_B),
        Field::Bls12381 => small(4),
        _ => small(0),
    };
    if !big_lt(x, &p) {
        return Err(CurveError::InvalidPoint);
    }
    let cube: Vec<u32> = fmul(&fmul(x, x, &p), x, &p);
    let rhs: Vec<u32> = fadd(&fadd(&cube, &fmul(&linear, x, &p), &p), &constant, &p);
    let y: Vec<u32> = fpow(&rhs, &big_div(&big_add(&p, &small(1)), &small(4)), &p);
    if !big_eq(&fmul(&y, &y, &p), &rhs) {
        return Err(CurveError::InvalidPoint);
    }
    Ok(pick_root(field, y, sign))
}

/// Computes the abscissa of an Edwards point from its ordinate and sign.
fn ed25519_decompress(y: &Vec<u32>, sign: u32) -> (r: Result<Vec<u32>, CurveError>)
    ensures
        match (r, edwards_decompressed(bigint::value(y@), sign)) {
            (Ok(x), Ok(expected)) => bigint::value(x@) == expected && bigint::trimmed(
                x@,
            ) && expected < Field::Ed25519.prime(),
            (Err(e), Err(expected)) => e == expected,
            _ => false,
        },
{
    let field: Field = Field::Ed25519;
    let p: Vec<u32> = field.modulus();
    let d: Vec<u32> = listed(&ED25519_D);
    let yy: Vec<u32> = fmul(y, y, &p);
    let w: Vec<u32> = fmul(
        &fsub(&yy, &small(1), &p),
        &finv(&fadd(&fmul(&d, &yy, &p), &small(1), &p), &p),
        &p,
    );
    let c: Vec<u32> = fpow(&w, &big_div(&big_add(&p, &small(3)), &small(8)), &p);
    if big_eq(&fmul(&c, &c, &p), &w) {
        return Ok(pick_root(field, c, sign));
    }
    let unit: Vec<u32> = fpow(&small(2), &big_div(&big_sub(&p, &small(1)), &small(4)), &p);
    let e: Vec<u32> = fmul(&c, &unit, &p);
    if big_eq(&fmul(&e, &e, &p), &w) {
        return Ok(pick_root(field, e, sign));
    }
    Err(CurveError::InvalidPoint)
}

impl Precompile {
    /// Evaluates a binary operation.
    pub fn apply_binary(&self, x: &Vec<u32>, y: &Vec<u32>) -> (r: Vec<u32>)
        requires
            self.shape() == Shape::Binary,
            x@.len() == self.width(),
            y@.len() == self.width(),
        ensures
            r@ == self.binary(x@, y@),
            r@.len() == self.width(),
    {
        match self {
            Precompile::EcAdd(f) => {
                let p: Vec<u32> = f.modulus();
                let n: usize = f.words();
                let sum: Pair = ec_add(&split_point(x, n), &split_point(y, n), &p);
                proof {
                    lemma_point_words_len(sum.at(), n as nat);
                }
                join_point(sum, n, &p)
            },
            Precompile::Fp2(f, op) => {
                let p: Vec<u32> = f.modulus();
                let n: usize = f.words();
                let out: Pair = fp2_op(*op, &split_point(x, n), &split_point(y, n), &p);
                proof {
                    lemma_point_words_len(out.at(), n as nat);
                }
                join_point(out, n, &p)
            },
            Precompile::Fp(f, op) => {
                let p: Vec<u32> = f.modulus();
                padded(fop(*op, x, y, &p), f.words())
            },
            _ => {
                let p: Vec<u32> = Field::Ed25519.modulus();
                let d: Vec<u32> = listed(&ED25519_D);
                let sum: Pair = ed_add(&split_point(x, 8), &split_point(y, 8), &d, &p);
                proof {
                    lemma_point_words_len(sum.at(), 8);
                }
                join_point(sum, 8, &p)
            },
        }
    }

    /// Evaluates a unary operation.
    pub fn apply_unary(&self, x: &Vec<u32>) -> (r: Vec<u32>)
        requires
            self.shape() == Shape::Unary,
            x@.len() == self.width(),
        ensures
            r@ == self.unary(x@),
            r@.len() == self.width(),
    {
        match self {
            Precompile::EcDouble(f) => {
                let p: Vec<u32> = f.modulus();
                let n: usize = f.words();
                let linear: Vec<u32> = match f {
                    Field::Secp256r1 => big_sub(&p, &small(3)),
                    _ => small(0),
                };
                let double: Pair = ec_double(&split_point(x, n), &linear, &p);
                proof {
                    lemma_point_words_len(double.at(), n as nat);
                }
                join_point(double, n, &p)
            },
            _ => poseidon2_permute(x),
        }
    }

    /// Evaluates a decompression.
    pub fn apply_decompress(&self, x: &Vec<u32>, sign: u32) -> (r: Result<Vec<u32>, CurveError>)
        requires
            self.shape() == Shape::Decompress,
            x@.len() == self.width(),
        ensures
            match (r, self.coordinate(x@, sign)) {
                (Ok(y), Ok(expected)) => y@ == expected && y@.len() == self.width(),
                (Err(e), Err(expected)) => e == expected,
                _ => false,
            },
    {
        match self {
            Precompile::EcDecompress(f) => {
                proof {
                    f.lemma_prime();
                }
                match ec_decompress(*f, x, sign) {
                    Ok(y) => Ok(padded(y, f.words())),
                    Err(e) => Err(e),
                }
            },
            _ => {
                proof {
                    Field::Ed25519.lemma_prime();
                }
                let mut y: Vec<u32> = Vec::new();
                let mut i: usize = 0;
                while i < 8
                    invariant
                        i <= 8,
                        x@.len() == 8,
                        y@ == x@.take(i as int),
                    decreases 8 - i,
                {
                    y.push(x[i]);
                    proof {
                        assert(x@.take(i + 1) =~= x@.take(i as int).push(x@[i as int]));
                    }
                    i = i + 1;
                }
                let top: u32 = x[7] & 0x7fff_ffff;
                y.set(7, top);
                proof {
                    assert(y@ =~= unsigned_ordinate(x@));
                }
                match ed25519_decompress(&y, sign) {
                    Ok(out) => Ok(padded(out, 8)),
                    Err(e) => Err(e),
                }
            },
        }
    }
}

proof fn lemma_point_words_len(a: (nat, nat), n: nat)
    ensures
        point_words(a, n).len() == 2 * n,
{
    bigint::lemma_words_of_len(a.0, n);
    bigint::lemma_words_of_len(a.1, n);
}

/// The low words of a number.
fn low_words(words: &Vec<u32>, n: usize) -> (r: Vec<u32>)
    ensures
        r@ == bigint::words_of(bigint::value(words@), n as nat),
        r@.len() == n,
{
    let mut r: Vec<u32> = Vec::new();
    let mut i: usize = 0;
    while i < n
        invariant
            i <= n,
            r@.len() == i,
            forall|j: int|
                0 <= j < i ==> #[trigger] r@[j] == (if j < words@.len() {
                    words@[j]
                } else {
                    0
                }),
        decreases n - i,
    {
        r.push(if i < words.len() { words[i] } else { 0 });
        i = i + 1;
    }
    proof {
        lemma_low_words(words@, n as nat);
        assert(r@ =~= bigint::words_of(bigint::value(words@), n as nat));
    }
    r
}

proof fn lemma_low_words(words: Seq<u32>, n: nat)
    ensures
        ({
            let low = bigint::words_of(bigint::value(words), n);
            &&& low.len() == n
            &&& forall|j: int|
                0 <= j < n ==> #[trigger] low[j] == (if j < words.len() {
                    words[j]
                } else {
                    0
                })
        }),
    decreases n,
{
    if n > 0 {
        let v = bigint::value(words);
        let rest = if words.len() == 0 {
            words
        } else {
            words.skip(1)
        };
        lemma_low_words(rest, (n - 1) as nat);
        let low = bigint::words_of(bigint::value(rest), (n - 1) as nat);
        if words.len() > 0 {
            let w = bigint::value(rest);
            assert(v == words[0] as nat + 0x1_0000_0000 * w);
            assert(v % 0x1_0000_0000 == words[0]);
            assert(v / 0x1_0000_0000 == w);
        } else {
            assert(v / 0x1_0000_0000 == 0);
        }
        let all = bigint::words_of(v, n);
        assert(all == seq![(v % 0x1_0000_0000) as u32] + low);
        assert forall|j: int| 0 <= j < n implies #[trigger] all[j] == (if j < words.len() {
            words[j]
        } else {
            0
        }) by {
            if j > 0 {
                assert(all[j] == low[j - 1]);
            }
        }
    }
}

/// Multiplies two 256-bit integers modulo a third.
pub fn uint256_mul(x: &Vec<u32>, y: &Vec<u32>, modulus: &Vec<u32>) -> (r: Vec<u32>)
    requires
        x@.len() == 8,
        y@.len() == 8,
        modulus@.len() == 8,
    ensures
        r@ == modular_product(x@, y@, modulus@),
        r@.len() == 8,
{
    let product: Vec<u32> = big_mul(x, y);
    if big_eq(modulus, &small(0)) {
        low_words(&product, 8)
    } else {
        low_words(&big_rem(&product, modulus), 8)
    }
}

/// Multiplies a 256-bit and a 2048-bit integer.
pub fn u256xu2048_mul(a: &Vec<u32>, b: &Vec<u32>) -> (r: (Vec<u32>, Vec<u32>))
    requires
        a@.len() == 8,
        b@.len() == 64,
    ensures
        (r.0@, r.1@) == wide_product(a@, b@),
        r.0@.len() == 64,
        r.1@.len() == 8,
{
    let mut lo: Vec<u32> = low_words(&big_mul(a, b), 72);
    let hi: Vec<u32> = lo.split_off(64);
    (lo, hi)
}

/// A reduced product keeps its value in the words of the result.
pub proof fn modular_product_is_exact(x: Seq<u32>, y: Seq<u32>, modulus: Seq<u32>)
    requires
        modulus.len() == 8,
        bigint::value(modulus) > 0,
    ensures
        bigint::value(modular_product(x, y, modulus)) == bigint::value(x)
            * bigint::value(y) % bigint::value(modulus),
{
    let m = bigint::value(modulus);
    bigint::lemma_value_bound(modulus);
    let v = bigint::value(x) * bigint::value(y) % m;
    assert(v < m);
    bigint::words_round_trip(v, 8);
}

/// The two results of a wide product hold it together: the high words lie behind the low ones.
pub proof fn wide_product_is_exact(a: Seq<u32>, b: Seq<u32>)
    requires
        a.len() == 8,
        b.len() == 64,
    ensures
        wide_product(a, b).0.len() == 64,
        wide_product(a, b).1.len() == 8,
        bigint::value(wide_product(a, b).0 + wide_product(a, b).1) == bigint::value(a)
            * bigint::value(b),
{
    let v = bigint::value(a) * bigint::value(b);
    let all = bigint::words_of(v, 72);
    bigint::lemma_words_of_len(v, 72);
    bigint::lemma_value_bound(a);
    bigint::lemma_value_bound(b);
    let p = power::pow(bigint::BASE as int, 8);
    let q = power::pow(bigint::BASE as int, 64);
    power::lemma_pow_adds(bigint::BASE as int, 8, 64);
    assert(v < p * q) by (nonlinear_arith)
        requires
            v == bigint::value(a) * bigint::value(b),
            bigint::value(a) < p,
            bigint::value(b) < q,
    ;
    bigint::words_round_trip(v, 72);
    assert(all.take(64) + all.skip(64) =~= all);
}

/// A call is counted as the addition of its field where it is a subtraction, and as itself
/// otherwise; both fill the same number of words and counting twice changes nothing.
pub proof fn subtractions_are_counted_as_additions(code: SyscallCode)
    ensures
        code.counted_as().counted_as() == code.counted_as(),
        Precompile::of(code) matches Some(op) ==> {
            &&& Precompile::of(code.counted_as()) is Some
            &&& Precompile::of(code.counted_as())->Some_0.width() == op.width()
            &&& Precompile::of(code.counted_as())->Some_0 == match op {
                Precompile::Fp(f, FieldOperation::Sub) => Precompile::Fp(f, FieldOperation::Add),
                Precompile::Fp2(f, FieldOperation::Sub) => Precompile::Fp2(f, FieldOperation::Add),
                _ => op,
            }
        },
        Precompile::of(code) is None ==> code.counted_as() == code,
{
}

} // verus!
