//! Natural numbers of any size as little-endian lists of words.
use num_bigint::BigUint;
use vstd::arithmetic::power;
use vstd::prelude::*;

verus! {

/// The number of values of a word.
pub const BASE: u64 = 0x1_0000_0000;

/// The number that a list of words holds, the least significant word first.
pub open spec fn value(words: Seq<u32>) -> nat
    decreases words.len(),
{
    if words.len() == 0 {
        0
    } else {
        words[0] as nat + 0x1_0000_0000 * value(words.skip(1))
    }
}

/// The low `n` words of a number, the least significant first.
pub open spec fn words_of(v: nat, n: nat) -> Seq<u32>
    decreases n,
{
    if n == 0 {
        Seq::empty()
    } else {
        seq![(v % (BASE as nat)) as u32] + words_of(v / (BASE as nat), (n - 1) as nat)
    }
}

/// The number that a list of bytes holds, the most significant byte first.
pub open spec fn be_value(bytes: Seq<u8>) -> nat
    decreases bytes.len(),
{
    if bytes.len() == 0 {
        0
    } else {
        be_value(bytes.drop_last()) * 256 + bytes.last() as nat
    }
}

/// The most significant word of the list is not zero.
pub open spec fn trimmed(words: Seq<u32>) -> bool {
    words.len() > 0 ==> words.last() != 0
}

/// `num_bigint::BigUint` addition: the result holds the sum, without leading zeros.
#[verifier::external_body]
pub(crate) fn big_add(a: &Vec<u32>, b: &Vec<u32>) -> (r: Vec<u32>)
    ensures
        value(r@) == value(a@) + value(b@),
        trimmed(r@),
{
    (BigUint::from_slice(a) + BigUint::from_slice(b)).to_u32_digits()
}

/// `num_bigint::BigUint` subtraction: the result holds the difference, without leading zeros.
#[verifier::external_body]
pub(crate) fn big_sub(a: &Vec<u32>, b: &Vec<u32>) -> (r: Vec<u32>)
    requires
        value(b@) <= value(a@),
    ensures
        value(r@) == value(a@) - value(b@),
        trimmed(r@),
{
    (BigUint::from_slice(a) - BigUint::from_slice(b)).to_u32_digits()
}

/// `num_bigint::BigUint` multiplication: the result holds the product, without leading zeros.
#[verifier::external_body]
pub(crate) fn big_mul(a: &Vec<u32>, b: &Vec<u32>) -> (r: Vec<u32>)
    ensures
        value(r@) == value(a@) * value(b@),
        trimmed(r@),
{
    (BigUint::from_slice(a) * BigUint::from_slice(b)).to_u32_digits()
}

/// `num_bigint::BigUint` remainder: the result holds the remainder, without leading zeros.
#[verifier::external_body]
pub(crate) fn big_rem(a: &Vec<u32>, m: &Vec<u32>) -> (r: Vec<u32>)
    requires
        value(m@) > 0,
    ensures
        value(r@) == value(a@) % value(m@),
        trimmed(r@),
{
    (BigUint::from_slice(a) % BigUint::from_slice(m)).to_u32_digits()
}

/// `num_bigint::BigUint` division: the result holds the quotient, without leading zeros.
#[verifier::external_body]
pub(crate) fn big_div(a: &Vec<u32>, m: &Vec<u32>) -> (r: Vec<u32>)
    requires
        value(m@) > 0,
    ensures
        value(r@) == value(a@) / value(m@),
        trimmed(r@),
{
    (BigUint::from_slice(a) / BigUint::from_slice(m)).to_u32_digits()
}

/// `num_bigint::BigUint::modpow`: the result holds the power modulo `m`, without leading zeros.
#[verifier::external_body]
pub(crate) fn big_modpow(a: &Vec<u32>, e: &Vec<u32>, m: &Vec<u32>) -> (r: Vec<u32>)
    requires
        value(m@) > 1,
    ensures
        value(r@) == power::pow(value(a@) as int, value(e@)) % (value(m@) as int),
        trimmed(r@),
{
    BigUint::from_slice(a).modpow(&BigUint::from_slice(e), &BigUint::from_slice(m)).to_u32_digits()
}

/// `num_bigint::BigUint::from_bytes_be`: the result holds the number that the bytes hold, without
/// leading zeros.
#[verifier::external_body]
pub(crate) fn big_from_bytes_be(bytes: &Vec<u8>) -> (r: Vec<u32>)
    ensures
        value(r@) == be_value(bytes@),
        trimmed(r@),
{
    BigUint::from_bytes_be(bytes).to_u32_digits()
}

/// `num_bigint::BigUint::to_bytes_be`: the result holds the same number, most significant byte
/// first. Zero is one zero byte; any other number has no leading zero byte.
#[verifier::external_body]
pub(crate) fn big_to_bytes_be(a: &Vec<u32>) -> (r: Vec<u8>)
    ensures
        be_value(r@) == value(a@),
        r@.len() > 0,
        r@[0] == 0 ==> r@.len() == 1,
{
    BigUint::from_slice(a).to_bytes_be()
}

/// Whether two lists of words hold the same number.
pub fn big_eq(a: &Vec<u32>, b: &Vec<u32>) -> (r: bool)
    ensures
        r == (value(a@) == value(b@)),
{
    !big_lt(a, b) && !big_lt(b, a)
}

/// Whether the first list of words holds the smaller number.
pub fn big_lt(a: &Vec<u32>, b: &Vec<u32>) -> (r: bool)
    ensures
        r == (value(a@) < value(b@)),
{
    let n: usize = if a.len() < b.len() { b.len() } else { a.len() };
    let mut i: usize = n;
    proof {
        lemma_skip_past(a@, n as int);
        lemma_skip_past(b@, n as int);
    }
    let mut less: bool = false;
    let mut equal: bool = true;
    while i > 0
        invariant
            i <= n,
            n == if a@.len() < b@.len() {
                b@.len()
            } else {
                a@.len()
            },
            equal ==> !less && from(a@, i as int) == from(b@, i as int),
            !equal ==> from(a@, i as int) != from(b@, i as int) && less == (from(a@, i as int) < from(
                b@,
                i as int,
            )),
        decreases i,
    {
        i = i - 1;
        let x: u32 = if i < a.len() { a[i] } else { 0 };
        let y: u32 = if i < b.len() { b[i] } else { 0 };
        proof {
            lemma_from(a@, i as int);
            lemma_from(b@, i as int);
            let p = from(a@, i + 1);
            let q = from(b@, i + 1);
            if p < q {
                assert(x + 0x1_0000_0000 * p < y + 0x1_0000_0000 * q);
            } else if q < p {
                assert(y + 0x1_0000_0000 * q < x + 0x1_0000_0000 * p);
            }
        }
        if equal {
            if x < y {
                less = true;
                equal = false;
            } else if y < x {
                equal = false;
            }
        }
    }
    proof {
        assert(a@.skip(0) =~= a@);
        assert(b@.skip(0) =~= b@);
    }
    less
}

/// The number held by the words from position `i` on.
spec fn from(words: Seq<u32>, i: int) -> nat {
    if i >= words.len() {
        0
    } else {
        value(words.skip(i))
    }
}

proof fn lemma_skip_past(words: Seq<u32>, i: int)
    requires
        i >= words.len(),
    ensures
        from(words, i) == 0,
{
}

proof fn lemma_from(words: Seq<u32>, i: int)
    requires
        0 <= i,
    ensures
        from(words, i) == (if i < words.len() {
            words[i] as nat
        } else {
            0
        }) + 0x1_0000_0000 * from(words, i + 1),
{
    reveal_with_fuel(value, 2);
    if i < words.len() {
        assert(words.skip(i).skip(1) =~= words.skip(i + 1));
        if i + 1 == words.len() {
            assert(words.skip(i + 1) =~= Seq::<u32>::empty());
        }
    }
}

/// A list of words holds a number below the power of the base that its length gives.
pub proof fn lemma_value_bound(words: Seq<u32>)
    ensures
        value(words) < power::pow(BASE as int, words.len()),
    decreases words.len(),
{
    reveal(power::pow);
    if words.len() > 0 {
        lemma_value_bound(words.skip(1));
        let p = power::pow(BASE as int, (words.len() - 1) as nat);
        let v = value(words.skip(1));
        assert(words[0] + BASE * v < BASE * p) by (nonlinear_arith)
            requires
                words[0] < BASE,
                v + 1 <= p,
                BASE == 0x1_0000_0000,
        ;
    }
}

/// Without leading zeros, a list of words is as short as its number allows.
pub proof fn lemma_trimmed_is_short(words: Seq<u32>, n: nat)
    requires
        trimmed(words),
        value(words) < power::pow(BASE as int, n),
    ensures
        words.len() <= n,
    decreases n,
{
    reveal(power::pow);
    if words.len() > n {
        if n == 0 {
            lemma_trimmed_is_positive(words);
        } else {
            let rest = words.skip(1);
            assert(rest.last() == words.last());
            let p = power::pow(BASE as int, (n - 1) as nat);
            let v = value(rest);
            assert(v < p) by (nonlinear_arith)
                requires
                    words[0] + BASE * v < BASE * p,
                    words[0] >= 0,
                    BASE == 0x1_0000_0000,
            ;
            lemma_trimmed_is_short(rest, (n - 1) as nat);
        }
    }
}

proof fn lemma_trimmed_is_positive(words: Seq<u32>)
    requires
        trimmed(words),
        words.len() > 0,
    ensures
        value(words) > 0,
    decreases words.len(),
{
    if words.len() > 1 {
        assert(words.skip(1).last() == words.last());
        lemma_trimmed_is_positive(words.skip(1));
    } else {
        assert(words[0] == words.last());
    }
}

/// The low words of the number that a list of words holds are that list, padded with zeros.
pub proof fn lemma_words_of_value(words: Seq<u32>, n: nat)
    requires
        words.len() <= n,
    ensures
        words_of(value(words), n) == words + Seq::new((n - words.len()) as nat, |i: int| 0u32),
    decreases n,
{
    if n > 0 {
        if words.len() == 0 {
            lemma_words_of_value(words, (n - 1) as nat);
            assert(words_of(value(words), n) =~= words + Seq::new(
                (n - words.len()) as nat,
                |i: int| 0u32,
            ));
        } else {
            let v = value(words.skip(1));
            assert((words[0] as nat + BASE as nat * v) % (BASE as nat) == words[0]) by (nonlinear_arith)
                requires
                    words[0] < BASE,
                    BASE == 0x1_0000_0000,
            ;
            assert((words[0] as nat + BASE as nat * v) / (BASE as nat) == v) by (nonlinear_arith)
                requires
                    words[0] < BASE,
                    BASE == 0x1_0000_0000,
            ;
            lemma_words_of_value(words.skip(1), (n - 1) as nat);
            assert(words_of(value(words), n) =~= words + Seq::new(
                (n - words.len()) as nat,
                |i: int| 0u32,
            ));
        }
    } else {
        assert(words_of(value(words), n) =~= words + Seq::new(
            (n - words.len()) as nat,
            |i: int| 0u32,
        ));
    }
}

/// A number is the number that its low words hold, if it fits.
pub proof fn words_round_trip(v: nat, n: nat)
    requires
        v < power::pow(BASE as int, n),
    ensures
        value(words_of(v, n)) == v,
        words_of(v, n).len() == n,
    decreases n,
{
    reveal(power::pow);
    if n > 0 {
        let p = power::pow(BASE as int, (n - 1) as nat);
        assert(v / (BASE as nat) < p) by (nonlinear_arith)
            requires
                v < BASE * p,
                BASE == 0x1_0000_0000,
        ;
        words_round_trip(v / (BASE as nat), (n - 1) as nat);
        assert(words_of(v, n).skip(1) =~= words_of(v / (BASE as nat), (n - 1) as nat));
        assert(v == v % (BASE as nat) + BASE as nat * (v / (BASE as nat))) by (nonlinear_arith)
            requires
                BASE == 0x1_0000_0000,
        ;
    }
}

/// The number of low words asked for is the number given.
pub proof fn lemma_words_of_len(v: nat, n: nat)
    ensures
        words_of(v, n).len() == n,
    decreases n,
{
    if n > 0 {
        lemma_words_of_len(v / (BASE as nat), (n - 1) as nat);
    }
}

/// Pads a list of words without leading zeros to a width.
pub(crate) fn padded(words: Vec<u32>, n: usize) -> (r: Vec<u32>)
    requires
        trimmed(words@),
        value(words@) < power::pow(BASE as int, n as nat),
    ensures
        r@ == words_of(value(words@), n as nat),
        r@.len() == n,
{
    proof {
        lemma_trimmed_is_short(words@, n as nat);
        lemma_words_of_value(words@, n as nat);
    }
    let ghost start = words@;
    let mut r: Vec<u32> = words;
    while r.len() < n
        invariant
            start.len() <= r@.len() <= n,
            r@ == start + Seq::new((r@.len() - start.len()) as nat, |i: int| 0u32),
        decreases n - r@.len(),
    {
        let ghost before = r@;
        r.push(0);
        proof {
            assert(r@ =~= start + Seq::new((r@.len() - start.len()) as nat, |i: int| 0u32));
        }
    }
    r
}

} // verus!
