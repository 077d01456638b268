//! Runtime hooks: computations outside the guest that a program requests by writing to a file
//! descriptor, and whose results it reads back as hints.
use k256::ecdsa::{RecoveryId, Signature, VerifyingKey};
use k256::elliptic_curve::ops::Invert;
use p256::ecdsa::Signature as R1Signature;
use vstd::arithmetic::power;
use vstd::prelude::*;

use crate::bigint;
use crate::bigint::{
    big_add, big_div, big_eq, big_from_bytes_be, big_lt, big_modpow, big_mul, big_rem, big_sub,
    big_to_bytes_be,
};
use crate::collections::WordMap;
use crate::errors::{CurveError, ExecutionError};
use crate::precompiles;
use crate::syscalls::{FD_FP_INV, FD_FP_SQRT, K1_ECRECOVER_HOOK, R1_ECRECOVER_HOOK};

verus! {

/// A built-in hook.
#[derive(Clone, Copy, Debug, PartialEq, Eq, Structural)]
pub enum Hook {
    /// Recovers a secp256k1 public key.
    K1Ecrecover,
    /// Inverts the second half of a secp256r1 signature.
    R1Ecrecover,
    /// Computes a square root in a prime field.
    FpSqrt,
    /// Computes an inverse in a prime field.
    FpInverse,
}

/// The order of the group of secp256k1.
pub open spec fn k1_order() -> nat {
    115792089237316195423570985008687907852837564279074904382605163141518161494337nat
}

/// The order of the group of secp256r1.
pub open spec fn r1_order() -> nat {
    115792089210356248762697446949407573529996955224135760342422259061068512044369nat
}

/// The two halves of a signature are scalars of a group of the given order, none of them zero.
pub open spec fn valid_signature(sig: Seq<u8>, order: nat) -> bool {
    &&& sig.len() == 64
    &&& 0 < bigint::be_value(sig.take(32)) < order
    &&& 0 < bigint::be_value(sig.skip(32)) < order
}

/// Whether the second half of a signature lies in the upper half of the scalars.
pub open spec fn high_s(sig: Seq<u8>, order: nat) -> bool {
    2 * bigint::be_value(sig.skip(32)) > order
}

/// The inverse of a scalar modulo the prime order of its group, as 32 bytes.
pub open spec fn inverse_bytes(scalar: nat, order: nat) -> Seq<u8> {
    be_bytes(precompiles::inv_mod(scalar, order), 32)
}

/// The signature with the second half negated if it lies in the upper half of the scalars.
pub open spec fn low_s(sig: Seq<u8>, order: nat) -> Seq<u8> {
    if high_s(sig, order) {
        sig.take(32) + be_bytes((order - bigint::be_value(sig.skip(32))) as nat, 32)
    } else {
        sig
    }
}

/// The encoded public key that a secp256k1 signature, a message hash and a recovery id determine.
pub uninterp spec fn k1_recovered(hash: Seq<u8>, sig: Seq<u8>, recovery_id: u8) -> Option<Seq<u8>>;

/// `k256::ecdsa::Signature::from_slice`: succeeds exactly on 64 bytes that hold two non-zero
/// scalars.
#[verifier::external_body]
fn k1_signature_is_valid(sig: &Vec<u8>) -> (r: bool)
    ensures
        r == valid_signature(sig@, k1_order()),
{
    Signature::from_slice(sig).is_ok()
}

/// `k256::ecdsa::Signature::normalize_s`: gives a signature with the second half negated if it
/// lies in the upper half of the scalars, and nothing otherwise.
#[verifier::external_body]
fn k1_normalize_s(sig: &Vec<u8>) -> (r: Option<Vec<u8>>)
    requires
        valid_signature(sig@, k1_order()),
    ensures
        r is Some == high_s(sig@, k1_order()),
        r matches Some(low) ==> low@ == low_s(sig@, k1_order()),
{
    Signature::from_slice(sig).unwrap().normalize_s().map(|s| s.to_bytes().to_vec())
}

/// `k256::ecdsa::VerifyingKey::recover_from_prehash` and `to_sec1_bytes`: the encoded key, if one
/// can be recovered, is a function of the hash, the signature and the recovery id.
#[verifier::external_body]
fn k1_recover(hash: &Vec<u8>, sig: &Vec<u8>, recovery_id: u8) -> (r: Option<Vec<u8>>)
    requires
        valid_signature(sig@, k1_order()),
        recovery_id <= 3,
    ensures
        r is Some == k1_recovered(hash@, sig@, recovery_id) is Some,
        r matches Some(key) ==> k1_recovered(hash@, sig@, recovery_id) == Some(key@),
{
    let sig = Signature::from_slice(sig).unwrap();
    let id = RecoveryId::from_byte(recovery_id).unwrap();
    let key = VerifyingKey::recover_from_prehash(hash, &sig, id).ok()?;
    Some(key.to_sec1_bytes().to_vec())
}

/// `k256::ecdsa::Signature::split_scalars` and `invert` on the second scalar: its inverse modulo
/// the group order, as 32 bytes.
#[verifier::external_body]
fn k1_s_inverse(sig: &Vec<u8>) -> (r: Vec<u8>)
    requires
        valid_signature(sig@, k1_order()),
    ensures
        r@ == inverse_bytes(bigint::be_value(sig@.skip(32)), k1_order()),
{
    Signature::from_slice(sig).unwrap().split_scalars().1.invert().to_bytes().to_vec()
}

/// `p256::ecdsa::Signature::from_slice`: succeeds exactly on 64 bytes that hold two non-zero
/// scalars.
#[verifier::external_body]
fn r1_signature_is_valid(sig: &Vec<u8>) -> (r: bool)
    ensures
        r == valid_signature(sig@, r1_order()),
{
    R1Signature::from_slice(sig).is_ok()
}

/// `p256::ecdsa::Signature::split_scalars` and `invert` on the second scalar: its inverse modulo
/// the group order, as 32 bytes.
#[verifier::external_body]
fn r1_s_inverse(sig: &Vec<u8>) -> (r: Vec<u8>)
    requires
        valid_signature(sig@, r1_order()),
    ensures
        r@ == inverse_bytes(bigint::be_value(sig@.skip(32)), r1_order()),
{
    R1Signature::from_slice(sig).unwrap().split_scalars().1.invert().to_bytes().to_vec()
}

/// The contents of a list of byte lists.
pub open spec fn contents(lists: Seq<Vec<u8>>) -> Seq<Seq<u8>> {
    lists.map_values(|v: Vec<u8>| v@)
}

/// The low `n` bytes of a number, the most significant first.
pub open spec fn be_bytes(v: nat, n: nat) -> Seq<u8>
    decreases n,
{
    if n == 0 {
        Seq::empty()
    } else {
        be_bytes(v / 256, (n - 1) as nat).push((v % 256) as u8)
    }
}

proof fn lemma_be_bytes(bytes: Seq<u8>, n: nat)
    ensures
        ({
            let low = be_bytes(bigint::be_value(bytes), n);
            &&& low.len() == n
            &&& forall|j: int|
                0 <= j < n ==> #[trigger] low[j] == (if j + bytes.len() >= n {
                    bytes[j + bytes.len() - n]
                } else {
                    0
                })
        }),
    decreases n,
{
    if n > 0 {
        let v = bigint::be_value(bytes);
        let rest = if bytes.len() == 0 {
            bytes
        } else {
            bytes.drop_last()
        };
        lemma_be_bytes(rest, (n - 1) as nat);
        if bytes.len() > 0 {
            assert(v == bigint::be_value(rest) * 256 + bytes.last() as nat);
            assert(v % 256 == bytes.last());
            assert(v / 256 == bigint::be_value(rest));
        }
        let all = be_bytes(v, n);
        let low = be_bytes(bigint::be_value(rest), (n - 1) as nat);
        assert(all == low.push((v % 256) as u8));
        assert forall|j: int| 0 <= j < n implies #[trigger] all[j] == (if j + bytes.len() >= n {
            bytes[j + bytes.len() - n]
        } else {
            0
        }) by {
            if j < n - 1 {
                assert(all[j] == low[j]);
            }
        }
    }
}

/// Pads a number to a length in bytes, the most significant first.
fn pad_to_be(val: &Vec<u32>, len: usize) -> (r: Vec<u8>)
    ensures
        r@ == be_bytes(bigint::value(val@), len as nat),
{
    let bytes: Vec<u8> = big_to_bytes_be(val);
    let mut r: Vec<u8> = Vec::new();
    let mut i: usize = 0;
    while i < len
        invariant
            i <= len,
            r@.len() == i,
            forall|j: int|
                0 <= j < i ==> #[trigger] r@[j] == (if j + bytes@.len() >= len {
                    bytes@[j + bytes@.len() - len]
                } else {
                    0
                }),
        decreases len - i,
    {
        let missing: usize = len - i;
        if bytes.len() >= missing {
            r.push(bytes[bytes.len() - missing]);
        } else {
            r.push(0);
        }
        i = i + 1;
    }
    proof {
        lemma_be_bytes(bytes@, len as nat);
        assert(r@ =~= be_bytes(bigint::value(val@), len as nat));
    }
    r
}

/// The bytes from `start` to `end`.
fn copied(bytes: &Vec<u8>, start: usize, end: usize) -> (r: Vec<u8>)
    requires
        start <= end <= bytes@.len(),
    ensures
        r@ == bytes@.subrange(start as int, end as int),
{
    let mut r: Vec<u8> = Vec::new();
    let mut i: usize = start;
    while i < end
        invariant
            start <= i <= end <= bytes@.len(),
            r@ == bytes@.subrange(start as int, i as int),
        decreases end - i,
    {
        r.push(bytes[i]);
        proof {
            assert(bytes@.subrange(start as int, i + 1) =~= bytes@.subrange(
                start as int,
                i as int,
            ).push(bytes@[i as int]));
        }
        i = i + 1;
    }
    r
}

/// The recovery id after the signature is normalized.
pub open spec fn normalized_id(sig: Seq<u8>, recovery_id: u8) -> u8 {
    if high_s(sig, k1_order()) {
        recovery_id ^ 1
    } else {
        recovery_id
    }
}

proof fn lemma_be_round_trip(v: nat, n: nat)
    requires
        v < power::pow(256, n),
    ensures
        bigint::be_value(be_bytes(v, n)) == v,
        be_bytes(v, n).len() == n,
    decreases n,
{
    reveal(power::pow);
    if n > 0 {
        let b = power::pow(256, (n - 1) as nat);
        assert(v / 256 < b) by (nonlinear_arith)
            requires
                v < 256 * b,
        ;
        lemma_be_round_trip(v / 256, (n - 1) as nat);
        assert(be_bytes(v, n).drop_last() =~= be_bytes(v / 256, (n - 1) as nat));
        assert(be_bytes(v, n).last() == (v % 256) as u8);
    }
}

/// Negating the second half keeps a signature valid and takes it to the lower half.
pub proof fn low_s_is_valid(sig: Seq<u8>)
    requires
        valid_signature(sig, k1_order()),
    ensures
        valid_signature(low_s(sig, k1_order()), k1_order()),
        !high_s(low_s(sig, k1_order()), k1_order()),
{
    let n = k1_order();
    if high_s(sig, n) {
        let v = (n - bigint::be_value(sig.skip(32))) as nat;
        assert(n < power::pow(256, 32)) by {
            reveal(power::pow);
            reveal_with_fuel(power::pow, 33);
        }
        lemma_be_round_trip(v, 32);
        let low = low_s(sig, n);
        assert(low.take(32) =~= sig.take(32));
        assert(low.skip(32) =~= be_bytes(v, 32));
    }
}

/// The answer to a key recovery request.
///
/// The buffer holds 65 bytes of signature, the last of them the recovery id, and 32 bytes of
/// message hash. The answer is the encoded public key and the inverse of the second half of the
/// signature. A high second half is negated first, which flips the parity of the recovery id.
pub open spec fn recovery_response(buf: Seq<u8>) -> Result<Seq<Seq<u8>>, ExecutionError> {
    let sig = buf.take(64);
    let low = low_s(sig, k1_order());
    let id = normalized_id(sig, buf[64]);
    let key = k1_recovered(buf.skip(65), low, id);
    if buf.len() != 97 {
        Err(ExecutionError::InvalidBufferLength(97, buf.len() as usize))
    } else if !valid_signature(sig, k1_order()) || id > 3 || key is None {
        Err(ExecutionError::CurveError(CurveError::InvalidSignature))
    } else {
        Ok(seq![key->Some_0, inverse_bytes(bigint::be_value(low.skip(32)), k1_order())])
    }
}

/// The inverse of a scalar, as bytes, times the scalar is the power of the scalar that Fermat's
/// theorem says is one when the order is prime.
proof fn lemma_inverse_bytes(scalar: nat, order: nat)
    requires
        2 <= order < power::pow(256, 32),
    ensures
        bigint::be_value(inverse_bytes(scalar, order)) < order,
        (bigint::be_value(inverse_bytes(scalar, order)) * scalar) % order == power::pow(
            scalar as int,
            (order - 1) as nat,
        ) % (order as int),
{
    let p = power::pow(scalar as int, (order - 2) as nat);
    let inverse = precompiles::inv_mod(scalar, order);
    lemma_be_round_trip(inverse, 32);
    power::lemma_pow_adds(scalar as int, (order - 2) as nat, 1);
    power::lemma_pow1(scalar as int);
    vstd::arithmetic::div_mod::lemma_mul_mod_noop_left(p, scalar as int, order as int);
}

proof fn lemma_orders_fit()
    ensures
        2 <= k1_order() < power::pow(256, 32),
        2 <= r1_order() < power::pow(256, 32),
{
    reveal(power::pow);
    reveal_with_fuel(power::pow, 33);
}

/// A key recovery request whose signature has a low second half is answered from the signature
/// and the recovery id as they stand in the request. The first answer is the key recovered from
/// the hash, the signature and the id; the second, multiplied by the second half of the
/// signature, is one modulo the group order by Fermat's theorem. The request is refused exactly
/// if the id is above three or no key can be recovered.
pub proof fn a_low_signature_is_used_as_given(buf: Seq<u8>)
    requires
        buf.len() == 97,
        valid_signature(buf.take(64), k1_order()),
        2 * bigint::be_value(buf.subrange(32, 64)) < k1_order(),
    ensures
        recovery_response(buf) is Ok <==> buf[64] <= 3 && k1_recovered(
            buf.subrange(65, 97),
            buf.subrange(0, 64),
            buf[64],
        ) is Some,
        recovery_response(buf) matches Ok(answer) ==> {
            let s = bigint::be_value(buf.subrange(32, 64));
            &&& answer.len() == 2
            &&& k1_recovered(buf.subrange(65, 97), buf.subrange(0, 64), buf[64]) == Some(answer[0])
            &&& bigint::be_value(answer[1]) < k1_order()
            &&& (bigint::be_value(answer[1]) * s) % k1_order() == power::pow(
                s as int,
                (k1_order() - 1) as nat,
            ) % (k1_order() as int)
        },
{
    let sig = buf.take(64);
    assert(sig =~= buf.subrange(0, 64));
    assert(sig.skip(32) =~= buf.subrange(32, 64));
    assert(buf.skip(65) =~= buf.subrange(65, 97));
    lemma_orders_fit();
    lemma_inverse_bytes(bigint::be_value(sig.skip(32)), k1_order());
}

/// A signature and its negation are the same request: with the second half taken from the group
/// order and the parity of the recovery id flipped, the answer does not change.
pub proof fn negated_signatures_get_the_same_answer(buf: Seq<u8>, twin: Seq<u8>)
    requires
        buf.len() == 97,
        twin.len() == 97,
        valid_signature(buf.take(64), k1_order()),
        twin.subrange(0, 32) == buf.subrange(0, 32),
        bigint::be_value(twin.subrange(32, 64)) + bigint::be_value(buf.subrange(32, 64))
            == k1_order(),
        twin[64] == buf[64] ^ 1,
        twin.subrange(65, 97) == buf.subrange(65, 97),
    ensures
        recovery_response(twin) == recovery_response(buf),
{
    let n = k1_order();
    let a = buf.take(64);
    let b = twin.take(64);
    assert(a.take(32) =~= buf.subrange(0, 32));
    assert(b.take(32) =~= twin.subrange(0, 32));
    assert(a.skip(32) =~= buf.subrange(32, 64));
    assert(b.skip(32) =~= twin.subrange(32, 64));
    assert(buf.skip(65) =~= buf.subrange(65, 97));
    assert(twin.skip(65) =~= twin.subrange(65, 97));
    lemma_be_bytes(a.skip(32), 32);
    lemma_be_bytes(b.skip(32), 32);
    assert(be_bytes(bigint::be_value(a.skip(32)), 32) =~= a.skip(32));
    assert(be_bytes(bigint::be_value(b.skip(32)), 32) =~= b.skip(32));
    assert(a.take(32) + a.skip(32) =~= a);
    assert(b.take(32) + b.skip(32) =~= b);
    let id = buf[64];
    assert((id ^ 1) ^ 1 == id) by (bit_vector);
    assert(n == 2 * (n / 2) + 1);
    assert(high_s(a, n) != high_s(b, n));
    assert(low_s(a, n) == low_s(b, n));
}

/// The answer to a request for the inverse of the second half of a secp256r1 signature.
pub open spec fn r1_response(buf: Seq<u8>) -> Result<Seq<Seq<u8>>, ExecutionError> {
    if buf.len() != 64 {
        Err(ExecutionError::InvalidBufferLength(64, buf.len() as usize))
    } else if !valid_signature(buf, r1_order()) {
        Err(ExecutionError::CurveError(CurveError::InvalidSignature))
    } else {
        Ok(seq![inverse_bytes(bigint::be_value(buf.skip(32)), r1_order())])
    }
}

/// The second half of a secp256r1 signature is inverted: times itself the answer is one modulo the
/// group order, by Fermat's theorem. The request is answered exactly if it holds a signature.
pub proof fn the_second_half_is_inverted(buf: Seq<u8>)
    ensures
        r1_response(buf) is Ok <==> valid_signature(buf, r1_order()),
        r1_response(buf) matches Ok(answer) ==> {
            let s = bigint::be_value(buf.subrange(32, 64));
            &&& answer.len() == 1
            &&& bigint::be_value(answer[0]) < r1_order()
            &&& (bigint::be_value(answer[0]) * s) % r1_order() == power::pow(
                s as int,
                (r1_order() - 1) as nat,
            ) % (r1_order() as int)
        },
{
    if valid_signature(buf, r1_order()) {
        assert(buf.skip(32) =~= buf.subrange(32, 64));
        lemma_orders_fit();
        lemma_inverse_bytes(bigint::be_value(buf.skip(32)), r1_order());
    }
}

/// Recovers the public key from a signature and a message hash.
pub fn hook_k1_ecrecover(buf: &Vec<u8>) -> (r: Result<Vec<Vec<u8>>, ExecutionError>)
    ensures
        responds(r, recovery_response(buf@)),
{
    if buf.len() != 97 {
        return Err(ExecutionError::InvalidBufferLength(97, buf.len()));
    }
    let given: Vec<u8> = copied(buf, 0, 64);
    let hash: Vec<u8> = copied(buf, 65, 97);
    proof {
        assert(given@ =~= buf@.take(64));
        assert(hash@ =~= buf@.skip(65));
    }
    if !k1_signature_is_valid(&given) {
        return Err(ExecutionError::CurveError(CurveError::InvalidSignature));
    }
    let mut recovery_id: u8 = buf[64];
    proof {
        low_s_is_valid(given@);
    }
    let mut sig: Vec<u8> = given;
    if let Some(low) = k1_normalize_s(&sig) {
        sig = low;
        recovery_id = recovery_id ^ 1;
    }
    if recovery_id > 3 {
        return Err(ExecutionError::CurveError(CurveError::InvalidSignature));
    }
    match k1_recover(&hash, &sig, recovery_id) {
        None => Err(ExecutionError::CurveError(CurveError::InvalidSignature)),
        Some(key) => {
            let mut out: Vec<Vec<u8>> = Vec::new();
            out.push(key);
            out.push(k1_s_inverse(&sig));
            proof {
                assert(contents(out@) =~= recovery_response(buf@)->Ok_0);
            }
            Ok(out)
        },
    }
}

/// Inverts the second half of a secp256r1 signature of 64 bytes.
pub fn hook_r1_ecrecover(buf: &Vec<u8>) -> (r: Result<Vec<Vec<u8>>, ExecutionError>)
    ensures
        responds(r, r1_response(buf@)),
{
    if buf.len() != 64 {
        return Err(ExecutionError::InvalidBufferLength(64, buf.len()));
    }
    if !r1_signature_is_valid(buf) {
        return Err(ExecutionError::CurveError(CurveError::InvalidSignature));
    }
    let mut out: Vec<Vec<u8>> = Vec::new();
    out.push(r1_s_inverse(buf));
    proof {
        assert(contents(out@) =~= r1_response(buf@)->Ok_0);
    }
    Ok(out)
}

/// A small number as a list of words.
fn small(x: u32) -> (r: Vec<u32>)
    ensures
        bigint::value(r@) == x,
{
    proof {
        reveal_with_fuel(bigint::value, 3);
    }
    let mut r: Vec<u32> = Vec::new();
    r.push(x);
    r
}

/// The length field of a field operation request.
pub open spec fn request_len(buf: Seq<u8>) -> nat {
    bigint::be_value(buf.take(4))
}

/// The `k`th number of a field operation request.
pub open spec fn request_number(buf: Seq<u8>, k: int) -> nat {
    let len = request_len(buf) as int;
    bigint::be_value(buf.subrange(4 + k * len, 4 + (k + 1) * len))
}

/// Whether the request holds the given count of numbers.
pub open spec fn request_complete(buf: Seq<u8>, count: int) -> bool {
    buf.len() >= 4 && buf.len() == 4 + count * request_len(buf)
}

proof fn lemma_be_four(bytes: Seq<u8>)
    requires
        bytes.len() == 4,
    ensures
        bigint::be_value(bytes) == bytes[0] * 0x100_0000 + bytes[1] * 0x1_0000 + bytes[2] * 0x100
            + bytes[3],
{
    reveal_with_fuel(bigint::be_value, 5);
    let b3 = bytes.drop_last();
    let b2 = b3.drop_last();
    let b1 = b2.drop_last();
    assert(b1.drop_last() =~= Seq::<u8>::empty());
    assert(b3.last() == bytes[2] && b2.last() == bytes[1] && b1.last() == bytes[0]);
}

/// Reads the length field of a request.
fn read_len(buf: &Vec<u8>) -> (r: u64)
    requires
        buf@.len() >= 4,
    ensures
        r == request_len(buf@),
        r <= 0xffff_ffff,
{
    proof {
        lemma_be_four(buf@.take(4));
    }
    (buf[0] as u64) * 0x100_0000 + (buf[1] as u64) * 0x1_0000 + (buf[2] as u64) * 0x100 + (
    buf[3] as u64)
}

/// The answer to an inversion request: the inverse by Fermat's theorem, padded to the request's
/// length. Requests that are cut short, zero elements and moduli below two are errors.
pub open spec fn inverse_response(buf: Seq<u8>) -> Result<Seq<Seq<u8>>, ExecutionError> {
    let element = request_number(buf, 0);
    let modulus = request_number(buf, 1);
    if !request_complete(buf, 2) {
        Err(ExecutionError::InvalidSyscallArgs())
    } else if element == 0 || modulus < 2 {
        Err(ExecutionError::InvalidSyscallArgs())
    } else {
        Ok(
            seq![
                be_bytes(
                    precompiles::pow_mod(element, (modulus - 2) as nat, modulus),
                    request_len(buf),
                ),
            ],
        )
    }
}

proof fn lemma_be_value_bound(bytes: Seq<u8>)
    ensures
        bigint::be_value(bytes) < power::pow(256, bytes.len()),
    decreases bytes.len(),
{
    reveal(power::pow);
    if bytes.len() > 0 {
        lemma_be_value_bound(bytes.drop_last());
        let v = bigint::be_value(bytes.drop_last());
        let p = power::pow(256, (bytes.len() - 1) as nat);
        assert(v * 256 + bytes.last() < 256 * p) by (nonlinear_arith)
            requires
                v < p,
                bytes.last() < 256,
        ;
    }
}

/// An inversion request is answered by a number of the request's length which, times the element,
/// is one modulo the modulus, by Fermat's theorem where that is prime. It is answered exactly if it
/// is complete, the element is not zero and the modulus at least two.
pub proof fn an_inversion_request_gets_the_inverse(buf: Seq<u8>, len: nat, element: nat, modulus: nat)
    requires
        buf.len() >= 4,
        len == bigint::be_value(buf.subrange(0, 4)),
        buf.len() == 4 + 2 * len,
        element == bigint::be_value(buf.subrange(4, 4 + len as int)),
        modulus == bigint::be_value(buf.subrange(4 + len as int, 4 + 2 * len as int)),
    ensures
        inverse_response(buf) is Ok <==> element != 0 && modulus >= 2,
        inverse_response(buf) matches Ok(answer) ==> {
            &&& answer.len() == 1
            &&& answer[0].len() == len
            &&& bigint::be_value(answer[0]) < modulus
            &&& (bigint::be_value(answer[0]) * element) % modulus == power::pow(
                element as int,
                (modulus - 1) as nat,
            ) % (modulus as int)
        },
{
    assert(buf.take(4) =~= buf.subrange(0, 4));
    assert(request_len(buf) == len);
    assert(4 + 0 * (len as int) == 4 && 4 + (0 + 1) * (len as int) == 4 + len && 4 + 1 * (len as int)
        == 4 + len && 4 + (1 + 1) * (len as int) == 4 + 2 * len) by (nonlinear_arith);
    assert(request_number(buf, 0) == element);
    assert(request_number(buf, 1) == modulus);
    if element != 0 && modulus >= 2 {
        lemma_be_value_bound(buf.subrange(4 + len as int, 4 + 2 * len as int));
        let p = power::pow(element as int, (modulus - 2) as nat);
        let inverse = precompiles::pow_mod(element, (modulus - 2) as nat, modulus);
        lemma_be_round_trip(inverse, len);
        power::lemma_pow_adds(element as int, (modulus - 2) as nat, 1);
        power::lemma_pow1(element as int);
        vstd::arithmetic::div_mod::lemma_mul_mod_noop_left(p, element as int, modulus as int);
    }
}

/// A hook result agrees with what it should be.
pub open spec fn responds(
    r: Result<Vec<Vec<u8>>, ExecutionError>,
    expected: Result<Seq<Seq<u8>>, ExecutionError>,
) -> bool {
    match (r, expected) {
        (Ok(out), Ok(lists)) => contents(out@) == lists,
        (Err(e), Err(f)) => e == f,
        _ => false,
    }
}

/// Computes the inverse of a field element.
///
/// The buffer holds a big-endian length of four bytes, then the element and the modulus, each of
/// that length and big-endian. The element must not be zero and the modulus at least two.
pub fn hook_fp_inverse(buf: &Vec<u8>) -> (r: Vec<Vec<u8>>)
    requires
        inverse_response(buf@) is Ok,
    ensures
        contents(r@) == inverse_response(buf@)->Ok_0,
{
    match answer_inverse(buf) {
        Ok(out) => out,
        Err(_) => Vec::new(),
    }
}

/// Answers any inversion request.
fn answer_inverse(buf: &Vec<u8>) -> (r: Result<Vec<Vec<u8>>, ExecutionError>)
    ensures
        responds(r, inverse_response(buf@)),
{
    if buf.len() < 4 {
        return Err(ExecutionError::InvalidSyscallArgs());
    }
    let len: u64 = read_len(buf);
    if buf.len() as u64 != 4 + 2 * len {
        return Err(ExecutionError::InvalidSyscallArgs());
    }
    let n: usize = len as usize;
    let element: Vec<u32> = big_from_bytes_be(&copied(buf, 4, 4 + n));
    let modulus: Vec<u32> = big_from_bytes_be(&copied(buf, 4 + n, 4 + 2 * n));
    proof {
        assert(4 + 0 * (n as int) == 4 && 4 + (0 + 1) * (n as int) == 4 + n) by (nonlinear_arith);
        assert(4 + 1 * (n as int) == 4 + n && 4 + (1 + 1) * (n as int) == 4 + 2 * n) by (nonlinear_arith);
    }
    if big_eq(&element, &small(0)) || big_lt(&modulus, &small(2)) {
        return Err(ExecutionError::InvalidSyscallArgs());
    }
    let inverse: Vec<u32> = big_modpow(&element, &big_sub(&modulus, &small(2)), &modulus);
    let mut out: Vec<Vec<u8>> = Vec::new();
    out.push(pad_to_be(&inverse, n));
    proof {
        assert(contents(out@) =~= inverse_response(buf@)->Ok_0);
    }
    Ok(out)
}

/// The Legendre symbol of an element, as an element of the field.
pub open spec fn legendre(element: nat, modulus: nat) -> nat {
    precompiles::pow_mod(element, ((modulus - 1) / 2) as nat, modulus)
}

/// Computes the Legendre symbol of a field element, which tells whether the element is a square.
pub fn legendre_symbol(element: &Vec<u32>, modulus: &Vec<u32>) -> (r: Vec<u32>)
    requires
        bigint::value(modulus@) > 1,
    ensures
        bigint::value(r@) == legendre(bigint::value(element@), bigint::value(modulus@)),
{
    big_modpow(element, &big_div(&big_sub(modulus, &small(1)), &small(2)), modulus)
}

/// How often a positive number can be halved, and what is left.
pub open spec fn odd_part(v: nat) -> (nat, nat)
    decreases v,
{
    if v > 0 && v % 2 == 0 {
        let (q, s) = odd_part(v / 2);
        (q, s + 1)
    } else {
        (v, 0)
    }
}

/// The number of squarings that take `t` to one, counting from `i`, if that is below `m`.
pub open spec fn squarings(t: nat, i: nat, m: nat, p: nat) -> Option<nat>
    decreases m - i,
{
    if t == 1 {
        Some(i)
    } else if i + 1 >= m {
        None
    } else {
        squarings((t * t) % p, i + 1, m, p)
    }
}

/// The refinement loop of the Tonelli-Shanks algorithm: `r` is the candidate, `t` the error, `c`
/// a root of unity of order `2^m`.
pub open spec fn shanks(r: nat, c: nat, t: nat, m: nat, p: nat) -> Option<nat>
    decreases m,
{
    if t == 1 {
        Some(r)
    } else {
        match squarings(t, 0, m, p) {
            None => None,
            Some(i) => if i >= m {
                None
            } else {
                let b = precompiles::pow_mod(c, power::pow(2, (m - i - 1) as nat) as nat, p);
                let c2 = (b * b) % p;
                shanks((r * b) % p, c2, (t * c2) % p, i, p)
            },
        }
    }
}

/// The square root that the Tonelli-Shanks algorithm finds.
pub open spec fn tonelli(element: nat, p: nat, nqr: nat) -> Option<nat> {
    if legendre(element, p) != 1 {
        None
    } else {
        let (q, s) = odd_part((p - 1) as nat);
        shanks(
            precompiles::pow_mod(element, ((q + 1) / 2) as nat, p),
            precompiles::pow_mod(nqr, q, p),
            precompiles::pow_mod(element, q, p),
            s,
            p,
        )
    }
}

proof fn lemma_squarings_bound(t: nat, i: nat, m: nat, p: nat)
    requires
        i < m,
        p > 0,
    ensures
        squarings(t, i, m, p) matches Some(k) ==> i <= k < m,
        t != 1 ==> (squarings(t, i, m, p) matches Some(k) ==> k > i),
    decreases m - i,
{
    if t != 1 && i + 1 < m {
        lemma_squarings_bound((t * t) % p, i + 1, m, p);
    }
}

/// Splits off the factors of two.
fn split_odd(v: Vec<u32>) -> (r: (Vec<u32>, u64))
    requires
        bigint::value(v@) < power::pow(2, 0xffff_ffff_ffff_ffff),
    ensures
        (bigint::value(r.0@), r.1 as nat) == odd_part(bigint::value(v@)),
{
    let ghost start = bigint::value(v@);
    let mut q: Vec<u32> = v;
    let mut s: u64 = 0;
    let two: Vec<u32> = small(2);
    let zero: Vec<u32> = small(0);
    proof {
        assert(power::pow(2, 0) == 1) by {
            reveal(power::pow);
        }
    }
    while !big_eq(&q, &zero) && big_eq(&big_rem(&q, &two), &zero)
        invariant
            bigint::value(two@) == 2,
            bigint::value(zero@) == 0,
            odd_part(start).0 == odd_part(bigint::value(q@)).0,
            odd_part(start).1 == odd_part(bigint::value(q@)).1 + s,
            bigint::value(q@) * power::pow(2, s as nat) <= start,
            start < power::pow(2, 0xffff_ffff_ffff_ffff),
        decreases bigint::value(q@),
    {
        let half: Vec<u32> = big_div(&q, &two);
        proof {
            let h = bigint::value(half@);
            assert(bigint::value(q@) == 2 * h);
            assert(h >= 1);
            reveal(power::pow);
            assert(power::pow(2, (s + 1) as nat) == 2 * power::pow(2, s as nat));
            assert(h * power::pow(2, (s + 1) as nat) <= start) by (nonlinear_arith)
                requires
                    2 * h * power::pow(2, s as nat) <= start,
                    power::pow(2, (s + 1) as nat) == 2 * power::pow(2, s as nat),
            ;
            power::lemma_pow_positive(2, (s + 1) as nat);
            assert(power::pow(2, (s + 1) as nat) <= start) by (nonlinear_arith)
                requires
                    h * power::pow(2, (s + 1) as nat) <= start,
                    h >= 1,
                    power::pow(2, (s + 1) as nat) > 0,
            ;
            if s == 0xffff_ffff_ffff_fffe {
                assert(false);
            }
        }
        q = half;
        s = s + 1;
    }
    (q, s)
}

/// The square roots that the Tonelli-Shanks algorithm finds are square roots.
pub proof fn tonelli_root_squares_back(element: nat, p: nat, nqr: nat)
    requires
        p > 1,
    ensures
        tonelli(element, p, nqr) matches Some(r) ==> (r * r) % p == element % p && r < p,
{
    if legendre(element, p) == 1 {
        let (q, s) = odd_part((p - 1) as nat);
        lemma_odd_part((p - 1) as nat);
        let half = ((q + 1) / 2) as nat;
        let r = precompiles::pow_mod(element, half, p);
        let t = precompiles::pow_mod(element, q, p);
        let e = element as int;
        assert(half + half == q + 1);
        power::lemma_pow_adds(e, half, half);
        power::lemma_pow_adds(e, 1, q);
        power::lemma_pow1(e);
        let a = power::pow(e, half);
        let b = power::pow(e, q);
        assert(power::pow(e, (1 + q) as nat) == e * b);
        assert(a * a == e * b);
        vstd::arithmetic::div_mod::lemma_mul_mod_noop(a, a, p as int);
        vstd::arithmetic::div_mod::lemma_mul_mod_noop_right(e, b, p as int);
        assert((r * r) % p == (element * t) % p);
        lemma_shanks(
            element,
            r,
            precompiles::pow_mod(nqr, q, p),
            t,
            s,
            p,
        );
    }
}

proof fn lemma_odd_part(v: nat)
    requires
        v > 0,
    ensures
        odd_part(v).0 % 2 == 1,
    decreases v,
{
    if v % 2 == 0 {
        lemma_odd_part(v / 2);
    }
}

proof fn lemma_shanks(element: nat, r: nat, c: nat, t: nat, m: nat, p: nat)
    requires
        p > 1,
        r < p,
        (r * r) % p == (element * t) % p,
    ensures
        shanks(r, c, t, m, p) matches Some(root) ==> (root * root) % p == element % p && root < p,
    decreases m,
{
    if t != 1 {
        if let Some(i) = squarings(t, 0, m, p) {
            if i < m {
                let b = precompiles::pow_mod(c, power::pow(2, (m - i - 1) as nat) as nat, p);
                let c2 = (b * b) % p;
                let r2 = (r * b) % p;
                let t2 = (t * c2) % p;
                let pi = p as int;
                let (ri, bi, ti, ei) = (r as int, b as int, t as int, element as int);
                // (r b)^2 = r^2 b^2 = e t b^2 = e (t c2)
                vstd::arithmetic::div_mod::lemma_mul_mod_noop(ri * bi, ri * bi, pi);
                assert((ri * bi) * (ri * bi) == (ri * ri) * (bi * bi)) by (nonlinear_arith);
                vstd::arithmetic::div_mod::lemma_mul_mod_noop_left(ri * ri, bi * bi, pi);
                vstd::arithmetic::div_mod::lemma_mul_mod_noop_left(ei * ti, bi * bi, pi);
                assert((ei * ti) * (bi * bi) == ei * (ti * (bi * bi))) by (nonlinear_arith);
                vstd::arithmetic::div_mod::lemma_mul_mod_noop_right(ti, bi * bi, pi);
                vstd::arithmetic::div_mod::lemma_mul_mod_noop_right(ei, ti * (bi * bi), pi);
                assert((r2 * r2) % p == (element * t2) % p);
                lemma_shanks(element, r2, c2, t2, i, p);
            }
        }
    }
}

/// Two to the given power.
fn two_to(k: u64) -> (r: Vec<u32>)
    ensures
        bigint::value(r@) == power::pow(2, k as nat),
{
    let two: Vec<u32> = small(2);
    let mut r: Vec<u32> = small(1);
    let mut i: u64 = 0;
    proof {
        reveal(power::pow);
    }
    while i < k
        invariant
            i <= k,
            bigint::value(two@) == 2,
            bigint::value(r@) == power::pow(2, i as nat),
        decreases k - i,
    {
        proof {
            reveal(power::pow);
        }
        r = big_mul(&two, &r);
        i = i + 1;
    }
    r
}

/// Computes a square root with the Tonelli-Shanks algorithm, given a non-square.
pub fn tonelli_shanks(element: &Vec<u32>, modulus: &Vec<u32>, nqr: &Vec<u32>) -> (r: Option<Vec<u32>>)
    requires
        bigint::value(modulus@) > 1,
        modulus@.len() < 0x400_0000_0000,
    ensures
        match (r, tonelli(bigint::value(element@), bigint::value(modulus@), bigint::value(nqr@))) {
            (Some(root), Some(expected)) => bigint::value(root@) == expected,
            (None, None) => true,
            _ => false,
        },
{
    let one: Vec<u32> = small(1);
    let ghost p = bigint::value(modulus@);
    if !big_eq(&legendre_symbol(element, modulus), &one) {
        return None;
    }
    proof {
        bigint::lemma_value_bound(modulus@);
        lemma_base_powers(modulus@.len());
    }
    let (q, s) = split_odd(big_sub(modulus, &one));
    let mut c: Vec<u32> = big_modpow(nqr, &q, modulus);
    let mut r: Vec<u32> = big_modpow(element, &big_div(&big_add(&q, &one), &small(2)), modulus);
    let mut t: Vec<u32> = big_modpow(element, &q, modulus);
    let mut m: u64 = s;
    let ghost expected = tonelli(bigint::value(element@), p, bigint::value(nqr@));
    proof {
        lemma_odd_part((p - 1) as nat);
    }
    while !big_eq(&t, &one)
        invariant
            p == bigint::value(modulus@),
            p > 1,
            bigint::value(one@) == 1,
            expected == shanks(
                bigint::value(r@),
                bigint::value(c@),
                bigint::value(t@),
                m as nat,
                p,
            ),
            expected == tonelli(bigint::value(element@), p, bigint::value(nqr@)),
        decreases m,
    {
        let ghost t0 = bigint::value(t@);
        if m == 0 {
            return None;
        }
        let mut i: u64 = 0;
        let mut square: Vec<u32> = big_mul(&t, &one);
        while !big_eq(&square, &one)
            invariant
                i < m,
                p == bigint::value(modulus@),
                p > 1,
                bigint::value(one@) == 1,
                squarings(t0, 0, m as nat, p) == squarings(bigint::value(square@), i as nat, m as nat, p),
                expected == (match squarings(t0, 0, m as nat, p) {
                    None => None,
                    Some(k) => expected,
                }),
                expected == tonelli(bigint::value(element@), p, bigint::value(nqr@)),
            decreases m - i,
        {
            if i + 1 == m {
                return None;
            }
            square = big_rem(&big_mul(&square, &square), modulus);
            i = i + 1;
        }
        proof {
            lemma_squarings_bound(t0, 0, m as nat, p);
        }
        let b: Vec<u32> = big_modpow(&c, &two_to(m - i - 1), modulus);
        r = big_rem(&big_mul(&r, &b), modulus);
        c = big_rem(&big_mul(&b, &b), modulus);
        t = big_rem(&big_mul(&t, &c), modulus);
        m = i;
    }
    Some(r)
}

proof fn lemma_base_powers(n: nat)
    requires
        n < 0x400_0000_0000,
    ensures
        power::pow(bigint::BASE as int, n) <= power::pow(2, 0xffff_ffff_ffff_ffff),
{
    lemma_base_is_power(n);
    power::lemma_pow_increases(2, 32 * n, 0xffff_ffff_ffff_ffff);
}

proof fn lemma_base_is_power(n: nat)
    ensures
        power::pow(bigint::BASE as int, n) == power::pow(2, 32 * n),
{
    power::lemma_pow_multiplies(2, 32, n);
    assert(power::pow(2, 32) == 0x1_0000_0000) by {
        reveal(power::pow);
        reveal_with_fuel(power::pow, 33);
    }
}

proof fn lemma_be_bound(bytes: Seq<u8>)
    ensures
        bigint::be_value(bytes) < power::pow(bigint::BASE as int, bytes.len()),
    decreases bytes.len(),
{
    reveal(power::pow);
    if bytes.len() > 0 {
        lemma_be_bound(bytes.drop_last());
        let v = bigint::be_value(bytes.drop_last());
        let b = power::pow(bigint::BASE as int, (bytes.len() - 1) as nat);
        assert(v * 256 + 256 <= 0x1_0000_0000 * b) by (nonlinear_arith)
            requires
                v + 1 <= b,
        ;
    }
}

/// The square root of an element, if it has one: a power if the modulus is three modulo four, and
/// what the Tonelli-Shanks algorithm finds otherwise.
pub open spec fn square_root(element: nat, p: nat, nqr: nat) -> Option<nat> {
    if p % 4 == 3 {
        let root = precompiles::pow_mod(element, (p + 1) / 4, p);
        if (root * root) % p == element {
            Some(root)
        } else {
            None
        }
    } else {
        tonelli(element, p, nqr)
    }
}

/// The square roots found are square roots.
pub proof fn square_root_squares_back(element: nat, p: nat, nqr: nat)
    requires
        1 < p,
        element < p,
    ensures
        square_root(element, p, nqr) matches Some(r) ==> (r * r) % p == element && r < p,
{
    tonelli_root_squares_back(element, p, nqr);
    vstd::arithmetic::div_mod::lemma_small_mod(element, p);
}

/// Computes the square root of a field element, given a non-square.
fn sqrt_fp(element: &Vec<u32>, modulus: &Vec<u32>, nqr: &Vec<u32>) -> (r: Option<Vec<u32>>)
    requires
        bigint::value(modulus@) > 1,
        modulus@.len() < 0x400_0000_0000,
    ensures
        match (r, square_root(bigint::value(element@), bigint::value(modulus@), bigint::value(nqr@))) {
            (Some(root), Some(expected)) => bigint::value(root@) == expected,
            (None, None) => true,
            _ => false,
        },
{
    if big_eq(&big_rem(modulus, &small(4)), &small(3)) {
        let exponent: Vec<u32> = big_div(&big_add(modulus, &small(1)), &small(4));
        let root: Vec<u32> = big_modpow(element, &exponent, modulus);
        if big_eq(&big_rem(&big_mul(&root, &root), modulus), element) {
            return Some(root);
        }
        return None;
    }
    tonelli_shanks(element, modulus, nqr)
}

/// The answer to a square root request: one and the root of the element, or zero and the root of
/// the element times the given non-square. Requests that are cut short, numbers that are not
/// reduced, an element that is zero, and a claimed non-square that helps neither way are errors.
pub open spec fn sqrt_response(buf: Seq<u8>) -> Result<Seq<Seq<u8>>, ExecutionError> {
    let len = request_len(buf);
    let element = request_number(buf, 0);
    let modulus = request_number(buf, 1);
    let nqr = request_number(buf, 2);
    if !request_complete(buf, 3) || element >= modulus || nqr >= modulus || element == 0 {
        Err(ExecutionError::InvalidSyscallArgs())
    } else {
        match square_root(element, modulus, nqr) {
            Some(root) => Ok(seq![seq![1u8], be_bytes(root, len)]),
            None => match square_root((nqr * element) % modulus, modulus, nqr) {
                Some(root) => Ok(seq![seq![0u8], be_bytes(root, len)]),
                None => Err(ExecutionError::InvalidSyscallArgs()),
            },
        }
    }
}

/// A square root request is answered by one and a number of the request's length whose square is
/// the element, or by zero and one whose square is the element times the claimed non-square.
pub proof fn a_square_root_request_gets_a_root(
    buf: Seq<u8>,
    len: nat,
    element: nat,
    modulus: nat,
    nqr: nat,
)
    requires
        buf.len() >= 4,
        len == bigint::be_value(buf.subrange(0, 4)),
        buf.len() == 4 + 3 * len,
        element == bigint::be_value(buf.subrange(4, 4 + len as int)),
        modulus == bigint::be_value(buf.subrange(4 + len as int, 4 + 2 * len as int)),
        nqr == bigint::be_value(buf.subrange(4 + 2 * len as int, 4 + 3 * len as int)),
    ensures
        sqrt_response(buf) matches Ok(answer) ==> {
            let root = bigint::be_value(answer[1]);
            &&& answer.len() == 2
            &&& answer[1].len() == len
            &&& root < modulus
            &&& answer[0] == seq![1u8] && (root * root) % modulus == element || answer[0] == seq![0u8]
                && (root * root) % modulus == (nqr * element) % modulus
        },
        element == 0 || element >= modulus || nqr >= modulus ==> sqrt_response(buf) is Err,
{
    assert(buf.take(4) =~= buf.subrange(0, 4));
    assert(request_len(buf) == len);
    assert(4 + 0 * (len as int) == 4 && 4 + (0 + 1) * (len as int) == 4 + len && 4 + 1 * (len as int)
        == 4 + len && 4 + (1 + 1) * (len as int) == 4 + 2 * len && 4 + 2 * (len as int) == 4 + 2 * len
        && 4 + (2 + 1) * (len as int) == 4 + 3 * len) by (nonlinear_arith);
    assert(request_number(buf, 0) == element);
    assert(request_number(buf, 1) == modulus);
    assert(request_number(buf, 2) == nqr);
    if element != 0 && element < modulus && nqr < modulus {
        lemma_be_value_bound(buf.subrange(4 + len as int, 4 + 2 * len as int));
        square_root_squares_back(element, modulus, nqr);
        let twist = (nqr * element) % modulus;
        assert(twist < modulus) by (nonlinear_arith)
            requires
                modulus > 0,
                twist == (nqr * element) % modulus,
        ;
        square_root_squares_back(twist, modulus, nqr);
        if let Some(root) = square_root(element, modulus, nqr) {
            lemma_be_round_trip(root, len);
        } else if let Some(root) = square_root(twist, modulus, nqr) {
            lemma_be_round_trip(root, len);
        }
    }
}

/// A status byte and a padded number.
fn status_and_root(status: u8, root: &Vec<u32>, len: usize) -> (r: Vec<Vec<u8>>)
    ensures
        contents(r@) == seq![seq![status], be_bytes(bigint::value(root@), len as nat)],
{
    let mut first: Vec<u8> = Vec::new();
    first.push(status);
    let mut out: Vec<Vec<u8>> = Vec::new();
    out.push(first);
    out.push(pad_to_be(root, len));
    proof {
        assert(first@ =~= seq![status]);
        assert(contents(out@) =~= seq![seq![status], be_bytes(bigint::value(root@), len as nat)]);
    }
    out
}

/// Computes the square root of a field element.
///
/// The buffer holds a big-endian length of four bytes, then the element, the modulus and a
/// non-square, each of that length and big-endian. The element and the non-square must be less than
/// the modulus, the element must not be zero, and one of it and its product with the non-square
/// must have a root.
pub fn hook_fp_sqrt(buf: &Vec<u8>) -> (r: Vec<Vec<u8>>)
    requires
        sqrt_response(buf@) is Ok,
    ensures
        contents(r@) == sqrt_response(buf@)->Ok_0,
{
    match answer_sqrt(buf) {
        Ok(out) => out,
        Err(_) => Vec::new(),
    }
}

/// Answers any square root request.
fn answer_sqrt(buf: &Vec<u8>) -> (r: Result<Vec<Vec<u8>>, ExecutionError>)
    ensures
        responds(r, sqrt_response(buf@)),
{
    if buf.len() < 4 {
        return Err(ExecutionError::InvalidSyscallArgs());
    }
    let len: u64 = read_len(buf);
    if buf.len() as u64 != 4 + 3 * len {
        return Err(ExecutionError::InvalidSyscallArgs());
    }
    let n: usize = len as usize;
    let element: Vec<u32> = big_from_bytes_be(&copied(buf, 4, 4 + n));
    let modulus_bytes: Vec<u8> = copied(buf, 4 + n, 4 + 2 * n);
    let modulus: Vec<u32> = big_from_bytes_be(&modulus_bytes);
    let nqr: Vec<u32> = big_from_bytes_be(&copied(buf, 4 + 2 * n, 4 + 3 * n));
    proof {
        assert(4 + 0 * (n as int) == 4 && 4 + (0 + 1) * (n as int) == 4 + n) by (nonlinear_arith);
        assert(4 + 1 * (n as int) == 4 + n && 4 + (1 + 1) * (n as int) == 4 + 2 * n) by (nonlinear_arith);
        assert(4 + 2 * (n as int) == 4 + 2 * n && 4 + (2 + 1) * (n as int) == 4 + 3 * n) by (nonlinear_arith);
        lemma_be_bound(modulus_bytes@);
        bigint::lemma_trimmed_is_short(modulus@, n as nat);
    }
    if !big_lt(&element, &modulus) || !big_lt(&nqr, &modulus) {
        return Err(ExecutionError::InvalidSyscallArgs());
    }
    let zero: Vec<u32> = small(0);
    if big_eq(&element, &zero) {
        return Err(ExecutionError::InvalidSyscallArgs());
    }
    match sqrt_fp(&element, &modulus, &nqr) {
        Some(root) => Ok(status_and_root(1, &root, n)),
        None => {
            let square: Vec<u32> = big_rem(&big_mul(&nqr, &element), &modulus);
            match sqrt_fp(&square, &modulus, &nqr) {
                Some(root) => Ok(status_and_root(0, &root, n)),
                None => Err(ExecutionError::InvalidSyscallArgs()),
            }
        },
    }
}

impl Hook {
    /// The number under which the hook stands in a table.
    pub open spec fn number(self) -> u64 {
        match self {
            Hook::K1Ecrecover => 0,
            Hook::R1Ecrecover => 1,
            Hook::FpSqrt => 2,
            Hook::FpInverse => 3,
        }
    }

    /// The hook with the given number.
    pub open spec fn numbered(n: u64) -> Hook {
        if n == 0 {
            Hook::K1Ecrecover
        } else if n == 1 {
            Hook::R1Ecrecover
        } else if n == 2 {
            Hook::FpSqrt
        } else {
            Hook::FpInverse
        }
    }

    /// The answer of the hook to a request.
    pub open spec fn response(self, buf: Seq<u8>) -> Result<Seq<Seq<u8>>, ExecutionError> {
        match self {
            Hook::K1Ecrecover => recovery_response(buf),
            Hook::R1Ecrecover => r1_response(buf),
            Hook::FpSqrt => sqrt_response(buf),
            Hook::FpInverse => inverse_response(buf),
        }
    }

    /// Runs the hook on whatever a program sends it. A request that the hook cannot be run on is
    /// refused.
    pub fn invoke_hook(&self, buf: &Vec<u8>) -> (r: Result<Vec<Vec<u8>>, ExecutionError>)
        ensures
            responds(r, self.response(buf@)),
    {
        match self {
            Hook::K1Ecrecover => hook_k1_ecrecover(buf),
            Hook::R1Ecrecover => hook_r1_ecrecover(buf),
            Hook::FpSqrt => answer_sqrt(buf),
            Hook::FpInverse => answer_inverse(buf),
        }
    }
}

/// A registry of hooks, indexed by the file descriptors through which they are called.
pub struct HookRegistry {
    table: WordMap,
}

impl HookRegistry {
    /// The hook of each file descriptor that has one.
    pub closed spec fn hooks(&self) -> Map<u32, Hook> {
        Map::new(
            |fd: u32| self.table@.contains_key(fd as u64),
            |fd: u32| Hook::numbered(self.table@[fd as u64]),
        )
    }

    /// The table is finite and its keys are file descriptors.
    pub closed spec fn wf(&self) -> bool {
        &&& self.table@.dom().finite()
        &&& forall|k: u64| #[trigger] self.table@.contains_key(k) ==> k <= u32::MAX
    }

    /// The registry of the built-in hooks.
    pub fn new() -> (r: Self)
        ensures
            r.wf(),
            r.hooks() == map![
                K1_ECRECOVER_HOOK => Hook::K1Ecrecover,
                R1_ECRECOVER_HOOK => Hook::R1Ecrecover,
                FD_FP_SQRT => Hook::FpSqrt,
                FD_FP_INV => Hook::FpInverse
            ],
    {
        let mut table: WordMap = WordMap::new();
        table.insert(K1_ECRECOVER_HOOK as u64, 0);
        table.insert(R1_ECRECOVER_HOOK as u64, 1);
        table.insert(FD_FP_SQRT as u64, 2);
        table.insert(FD_FP_INV as u64, 3);
        let r = HookRegistry { table };
        proof {
            assert(r.hooks() =~= map![
                K1_ECRECOVER_HOOK => Hook::K1Ecrecover,
                R1_ECRECOVER_HOOK => Hook::R1Ecrecover,
                FD_FP_SQRT => Hook::FpSqrt,
                FD_FP_INV => Hook::FpInverse
            ]);
        }
        r
    }

    /// The registry without hooks.
    pub fn empty() -> (r: Self)
        ensures
            r.wf(),
            r.hooks() == Map::<u32, Hook>::empty(),
    {
        let r = HookRegistry { table: WordMap::new() };
        proof {
            assert(r.hooks() =~= Map::<u32, Hook>::empty());
        }
        r
    }

    /// The hook of a file descriptor, if it has one.
    pub fn get(&self, fd: u32) -> (r: Option<Hook>)
        ensures
            r == (if self.hooks().contains_key(fd) {
                Some(self.hooks()[fd])
            } else {
                None
            }),
    {
        match self.table.get(fd as u64) {
            None => None,
            Some(n) => if n == 0 {
                Some(Hook::K1Ecrecover)
            } else if n == 1 {
                Some(Hook::R1Ecrecover)
            } else if n == 2 {
                Some(Hook::FpSqrt)
            } else {
                Some(Hook::FpInverse)
            },
        }
    }

    /// The number of hooks.
    pub fn len(&self) -> (r: usize)
        requires
            self.wf(),
        ensures
            r == self.hooks().dom().len(),
    {
        proof {
            let f = |k: u64| k as u32;
            assert(self.table@.dom().map(f) =~= self.hooks().dom()) by {
                assert forall|fd: u32| self.hooks().dom().contains(fd) implies #[trigger] self.table@.dom().map(
                    f,
                ).contains(fd) by {
                    assert(self.table@.dom().contains(fd as u64) && f(fd as u64) == fd);
                }
            }
            vstd::set_lib::lemma_map_size(self.table@.dom(), self.hooks().dom(), f);
        }
        self.table.len()
    }
}

impl Default for HookRegistry {
    /// The registry of the built-in hooks.
    fn default() -> (r: Self)
        ensures
            r.wf(),
            r.hooks() == map![
                K1_ECRECOVER_HOOK => Hook::K1Ecrecover,
                R1_ECRECOVER_HOOK => Hook::R1Ecrecover,
                FD_FP_SQRT => Hook::FpSqrt,
                FD_FP_INV => Hook::FpInverse
            ],
    {
        HookRegistry::new()
    }
}

} // verus!
