//! Laws of the operations on fields and curves, stated by congruences between what goes in and
//! what comes out.
//!
//! Quotients are taken by Fermat's theorem: the power of a number with the exponent `p - 2` is its
//! inverse modulo a prime `p`, unless `p` divides the number. The laws of quotients ask that the
//! power with the exponent `p - 1` be one for their denominator, which is what the theorem says.
use vstd::arithmetic::power;
use vstd::prelude::*;

use crate::bigint;
use crate::errors::CurveError;
use crate::precompiles::{self, Field, FieldOperation};

verus! {

/// Two integers differ by a multiple of `p`.
pub open spec fn congruent(a: int, b: int, p: nat) -> bool {
    (a - b) % (p as int) == 0
}

/// Fermat's theorem holds of a number modulo `p`.
pub open spec fn invertible(a: nat, p: nat) -> bool {
    power::pow(a as int, (p - 1) as nat) % (p as int) == 1
}

proof fn lemma_witness(a: int, b: int, k: int, p: nat)
    requires
        p > 0,
        a - b == k * p,
    ensures
        congruent(a, b, p),
{
    vstd::arithmetic::div_mod::lemma_mod_multiples_basic(k, p as int);
}

proof fn lemma_unfold(a: int, b: int, p: nat) -> (k: int)
    requires
        p > 0,
        congruent(a, b, p),
    ensures
        a - b == k * p,
{
    let k = (a - b) / (p as int);
    assert(a - b == k * p) by (nonlinear_arith)
        requires
            p > 0,
            (a - b) % (p as int) == 0,
            k == (a - b) / (p as int),
    ;
    k
}

proof fn lemma_sum(a: int, b: int, c: int, d: int, p: nat)
    requires
        p > 0,
        congruent(a, b, p),
        congruent(c, d, p),
    ensures
        congruent(a + c, b + d, p),
        congruent(a - c, b - d, p),
{
    let j = lemma_unfold(a, b, p);
    let k = lemma_unfold(c, d, p);
    assert(a + c - (b + d) == (j + k) * p && a - c - (b - d) == (j - k) * p) by (nonlinear_arith)
        requires
            a - b == j * p,
            c - d == k * p,
    ;
    lemma_witness(a + c, b + d, j + k, p);
    lemma_witness(a - c, b - d, j - k, p);
}

proof fn lemma_product(a: int, b: int, c: int, d: int, p: nat)
    requires
        p > 0,
        congruent(a, b, p),
        congruent(c, d, p),
    ensures
        congruent(a * c, b * d, p),
{
    let j = lemma_unfold(a, b, p);
    let k = lemma_unfold(c, d, p);
    assert(a * c - b * d == (j * c + b * k) * p) by (nonlinear_arith)
        requires
            a - b == j * p,
            c - d == k * p,
    ;
    lemma_witness(a * c, b * d, j * c + b * k, p);
}

proof fn lemma_chain(a: int, b: int, c: int, p: nat)
    requires
        p > 0,
        congruent(a, b, p),
        congruent(b, c, p),
    ensures
        congruent(a, c, p),
{
    let j = lemma_unfold(a, b, p);
    let k = lemma_unfold(b, c, p);
    assert(a - c == (j + k) * p) by (nonlinear_arith)
        requires
            a - b == j * p,
            b - c == k * p,
    ;
    lemma_witness(a, c, j + k, p);
}

proof fn lemma_reduced(a: int, p: nat)
    requires
        p > 0,
    ensures
        congruent(a % (p as int), a, p),
        congruent(a, a % (p as int), p),
        0 <= a % (p as int) < p,
{
    let k = a / (p as int);
    assert(a % (p as int) - a == (-k) * p && a - a % (p as int) == k * p) by (nonlinear_arith)
        requires
            p > 0,
            k == a / (p as int),
    ;
    lemma_witness(a % (p as int), a, -k, p);
    lemma_witness(a, a % (p as int), k, p);
}

proof fn lemma_same(a: int, p: nat)
    requires
        p > 0,
    ensures
        congruent(a, a, p),
{
    lemma_witness(a, a, 0, p);
}

/// The results of the field operations are below the modulus and congruent to the sum, the
/// difference and the product of the integers.
pub proof fn field_results_are_congruent(a: nat, b: nat, p: nat)
    requires
        p > 0,
    ensures
        precompiles::field_result(FieldOperation::Add, a, b, p) < p,
        precompiles::field_result(FieldOperation::Sub, a, b, p) < p,
        precompiles::field_result(FieldOperation::Mul, a, b, p) < p,
        congruent(precompiles::field_result(FieldOperation::Add, a, b, p) as int, a as int + b, p),
        congruent(precompiles::field_result(FieldOperation::Sub, a, b, p) as int, a - b, p),
        congruent(
            precompiles::field_result(FieldOperation::Mul, a, b, p) as int,
            a as int * b as int,
            p,
        ),
{
    lemma_reduced(a as int + b, p);
    lemma_reduced(b as int, p);
    let r = p - b as int % (p as int);
    let d = a + r;
    lemma_reduced(d, p);
    // a + (p - b % p) differs from a - b by a multiple of p.
    let k = lemma_unfold(b as int, b as int % (p as int), p);
    assert(d - (a - b) == (k + 1) * p) by (nonlinear_arith)
        requires
            d == a + r,
            r == p - b as int % (p as int),
            b - b as int % (p as int) == k * p,
    ;
    lemma_witness(d, a - b, k + 1, p);
    lemma_chain(d % (p as int), d, a - b, p);
    lemma_reduced(a as int * b as int, p);
    assert(a * b == a as int * b as int);
}

/// The operations of the quadratic extension are those of `x + y i` with `i * i = -1`.
pub proof fn extension_results_are_congruent(a: (nat, nat), b: (nat, nat), p: nat)
    requires
        p > 0,
    ensures
        ({
            let sum = precompiles::extension_result(FieldOperation::Add, a, b, p);
            let difference = precompiles::extension_result(FieldOperation::Sub, a, b, p);
            let product = precompiles::extension_result(FieldOperation::Mul, a, b, p);
            &&& congruent(sum.0 as int, a.0 as int + b.0, p) && congruent(sum.1 as int, a.1 as int + b.1, p)
            &&& congruent(difference.0 as int, a.0 - b.0, p) && congruent(
                difference.1 as int,
                a.1 - b.1,
                p,
            )
            &&& congruent(
                product.0 as int,
                a.0 as int * b.0 as int - a.1 as int * b.1 as int,
                p,
            )
            &&& congruent(
                product.1 as int,
                a.0 as int * b.1 as int + a.1 as int * b.0 as int,
                p,
            )
            &&& sum.0 < p && sum.1 < p && difference.0 < p && difference.1 < p && product.0 < p
                && product.1 < p
        }),
{
    field_results_are_congruent(a.0, b.0, p);
    field_results_are_congruent(a.1, b.1, p);
    field_results_are_congruent(a.0, b.1, p);
    field_results_are_congruent(a.1, b.0, p);
    let m00 = precompiles::mul_mod(a.0, b.0, p);
    let m11 = precompiles::mul_mod(a.1, b.1, p);
    let m01 = precompiles::mul_mod(a.0, b.1, p);
    let m10 = precompiles::mul_mod(a.1, b.0, p);
    field_results_are_congruent(m00, m11, p);
    field_results_are_congruent(m01, m10, p);
    let p00 = a.0 as int * b.0 as int;
    let p11 = a.1 as int * b.1 as int;
    let p01 = a.0 as int * b.1 as int;
    let p10 = a.1 as int * b.0 as int;
    lemma_sum(m00 as int, p00, m11 as int, p11, p);
    lemma_sum(m01 as int, p01, m10 as int, p10, p);
    let product = precompiles::extension_result(FieldOperation::Mul, a, b, p);
    lemma_chain(product.0 as int, m00 - m11, p00 - p11, p);
    lemma_chain(product.1 as int, m01 as int + m10, p01 + p10, p);
}

/// The inverse of a number modulo `p` times the number is one.
pub proof fn an_inverse_inverts(a: nat, p: nat)
    requires
        p >= 2,
        invertible(a, p),
    ensures
        precompiles::inv_mod(a, p) < p,
        congruent(precompiles::inv_mod(a, p) * a as int, 1, p),
{
    let q = power::pow(a as int, (p - 2) as nat);
    lemma_reduced(q, p);
    let inverse = precompiles::inv_mod(a, p) as int;
    power::lemma_pow_adds(a as int, (p - 2) as nat, 1);
    power::lemma_pow1(a as int);
    lemma_same(a as int, p);
    lemma_product(inverse, q, a as int, a as int, p);
    let full = power::pow(a as int, (p - 1) as nat);
    assert(full == q * a);
    lemma_reduced(full, p);
    lemma_chain(inverse * a, full, 1, p);
}

/// A quotient by Fermat's theorem, multiplied by its denominator, is its numerator.
proof fn lemma_quotient(n: nat, d: nat, p: nat)
    requires
        p >= 2,
        invertible(d, p),
    ensures
        ({
            let s = precompiles::mul_mod(n, precompiles::inv_mod(d, p), p);
            congruent(s * d as int, n as int, p) && s < p
        }),
{
    an_inverse_inverts(d, p);
    let inverse = precompiles::inv_mod(d, p);
    let s = precompiles::mul_mod(n, inverse, p);
    field_results_are_congruent(n, inverse, p);
    lemma_same(d as int, p);
    lemma_same(n as int, p);
    lemma_product(s as int, n as int * inverse as int, d as int, d as int, p);
    lemma_product(n as int, n as int, inverse * d as int, 1, p);
    assert(n as int * inverse as int * d == n as int * (inverse * d as int)) by (nonlinear_arith);
    lemma_chain(s * d as int, n as int * inverse as int * d, n as int, p);
}

/// The third point of a line, in terms of the rise and the run of the line.
proof fn lemma_chord(s: nat, a: (nat, nat), b: (nat, nat), rise: int, run: int, p: nat)
    requires
        p >= 2,
        congruent(s * run, rise, p),
    ensures
        ({
            let r = precompiles::chord(s, a, b, p);
            &&& r.0 < p && r.1 < p
            &&& congruent((r.0 as int + a.0 + b.0) * (run * run), rise * rise, p)
            &&& congruent((r.1 as int + a.1) * run, rise * (a.0 - r.0), p)
        }),
{
    let r = precompiles::chord(s, a, b, p);
    let ss = precompiles::mul_mod(s, s, p);
    let t = precompiles::sub_mod(ss, a.0, p);
    field_results_are_congruent(s, s, p);
    field_results_are_congruent(ss, a.0, p);
    field_results_are_congruent(t, b.0, p);
    let square = s as int * s as int;
    // r.0 as int + a.0 + b.0 is congruent to the square of the slope.
    lemma_same(a.0 as int, p);
    lemma_same(b.0 as int, p);
    lemma_sum(ss as int, square, a.0 as int, a.0 as int, p);
    lemma_chain(t as int, ss - a.0, square - a.0, p);
    lemma_sum(t as int, square - a.0, b.0 as int, b.0 as int, p);
    lemma_chain(r.0 as int, t - b.0, square - a.0 - b.0, p);
    lemma_sum(r.0 as int, square - a.0 - b.0, a.0 as int + b.0, a.0 as int + b.0, p);
    lemma_same(a.0 as int + b.0, p);
    lemma_sum(r.0 as int, square - a.0 - b.0, a.0 as int + b.0, a.0 as int + b.0, p);
    assert(congruent(r.0 as int + a.0 + b.0, square, p));
    lemma_same(run * run, p);
    lemma_product(r.0 as int + a.0 + b.0, square, run * run, run * run, p);
    lemma_product(s * run, rise, s * run, rise, p);
    assert(square * (run * run) == (s * run) * (s * run)) by (nonlinear_arith)
        requires
            square == s as int * s as int,
    ;
    lemma_chain((r.0 as int + a.0 + b.0) * (run * run), square * (run * run), rise * rise, p);
    // r.1 as int + a.1 is congruent to the slope times a.0 - r.0.
    let u = precompiles::sub_mod(a.0, r.0, p);
    let v = precompiles::mul_mod(s, u, p);
    field_results_are_congruent(a.0, r.0, p);
    field_results_are_congruent(s, u, p);
    field_results_are_congruent(v, a.1, p);
    let step = a.0 - r.0;
    lemma_same(s as int, p);
    lemma_product(s as int, s as int, u as int, step, p);
    lemma_chain(v as int, s as int * u as int, s as int * step, p);
    lemma_same(a.1 as int, p);
    lemma_sum(v as int, s as int * step, a.1 as int, a.1 as int, p);
    lemma_chain(r.1 as int, v - a.1, s as int * step - a.1, p);
    lemma_sum(r.1 as int, s as int * step - a.1, a.1 as int, a.1 as int, p);
    assert(congruent(r.1 as int + a.1, s as int * step, p));
    lemma_same(run, p);
    lemma_product(r.1 as int + a.1, s as int * step, run, run, p);
    lemma_same(step, p);
    lemma_product(s * run, rise, step, step, p);
    assert(s as int * step * run == (s * run) * step) by (nonlinear_arith);
    lemma_chain((r.1 as int + a.1) * run, s as int * step * run, rise * step, p);
}

/// The sum of two points with distinct abscissae: its negation lies on the line through the points,
/// and the abscissae of the three add up to the square of the slope. The two relations are stated
/// without the slope, multiplied by the difference of the abscissae.
pub proof fn the_sum_lies_on_the_line_through_the_points(a: (nat, nat), b: (nat, nat), p: nat)
    requires
        p >= 2,
        invertible(precompiles::sub_mod(b.0, a.0, p), p),
    ensures
        ({
            let r = precompiles::curve_sum(a, b, p);
            let run = b.0 - a.0;
            let rise = b.1 - a.1;
            &&& r.0 < p && r.1 < p
            &&& congruent((r.0 as int + a.0 + b.0) * (run * run), rise * rise, p)
            &&& congruent((r.1 as int + a.1) * run, rise * (a.0 - r.0), p)
        }),
{
    let d = precompiles::sub_mod(b.0, a.0, p);
    let n = precompiles::sub_mod(b.1, a.1, p);
    let s = precompiles::mul_mod(n, precompiles::inv_mod(d, p), p);
    lemma_quotient(n, d, p);
    field_results_are_congruent(b.0, a.0, p);
    field_results_are_congruent(b.1, a.1, p);
    let run = b.0 - a.0;
    let rise = b.1 - a.1;
    lemma_slope(s, n, d, rise, run, p);
    lemma_chord(s, a, b, rise, run, p);
}

proof fn lemma_slope(s: nat, n: nat, d: nat, rise: int, run: int, p: nat)
    requires
        p >= 2,
        congruent(s * d as int, n as int, p),
        congruent(n as int, rise, p),
        congruent(d as int, run, p),
    ensures
        congruent(s * run, rise, p),
{
    lemma_same(s as int, p);
    lemma_product(s as int, s as int, d as int, run, p);
    let k = lemma_unfold(s as int * d as int, s as int * run, p);
    assert(s as int * run - s as int * d as int == (-k) * p) by (nonlinear_arith)
        requires
            s as int * d as int - s as int * run == k * p,
    ;
    lemma_witness(s * run, s * d as int, -k, p);
    lemma_chain(s * run, s * d as int, n as int, p);
    lemma_chain(s * run, n as int, rise, p);
}

/// The double of a point: its negation lies on the tangent of the curve at the point. The rise and
/// the run of the tangent are the derivatives of the two sides of the equation.
pub proof fn the_double_lies_on_the_tangent(a: (nat, nat), linear: nat, p: nat)
    requires
        p >= 2,
        invertible(precompiles::mul_mod(2, a.1, p), p),
    ensures
        ({
            let r = precompiles::curve_double(a, linear, p);
            let run = 2 * a.1;
            let rise = 3 * (a.0 as int * a.0 as int) + linear;
            &&& r.0 < p && r.1 < p
            &&& congruent((r.0 as int + a.0 + a.0) * (run * run), rise * rise, p)
            &&& congruent((r.1 as int + a.1) * run, rise * (a.0 - r.0), p)
        }),
{
    let xx = precompiles::mul_mod(a.0, a.0, p);
    let t = precompiles::mul_mod(3, xx, p);
    let n = precompiles::add_mod(t, linear, p);
    let d = precompiles::mul_mod(2, a.1, p);
    let s = precompiles::mul_mod(n, precompiles::inv_mod(d, p), p);
    lemma_quotient(n, d, p);
    field_results_are_congruent(a.0, a.0, p);
    field_results_are_congruent(3, xx, p);
    field_results_are_congruent(t, linear, p);
    field_results_are_congruent(2, a.1, p);
    let square = a.0 as int * a.0 as int;
    lemma_same(3, p);
    lemma_product(3, 3, xx as int, square, p);
    lemma_chain(t as int, 3 * (xx as int), 3 * square, p);
    lemma_same(linear as int, p);
    lemma_sum(t as int, 3 * square, linear as int, linear as int, p);
    let run = 2 * a.1;
    let rise = 3 * square + linear;
    lemma_chain(n as int, t as int + linear, rise, p);
    lemma_slope(s, n, d, rise, run as int, p);
    lemma_chord(s, a, a, rise, run as int, p);
}

/// The sum of two points of the Edwards curve: the coordinates, multiplied by one plus and one less
/// the product of the constant and all four coordinates, are the sums of products of coordinates.
pub proof fn the_edwards_sum_solves_the_addition_law(
    a: (nat, nat),
    b: (nat, nat),
    d: nat,
    p: nat,
)
    requires
        p >= 2,
        ({
            let t = precompiles::mul_mod(
                d,
                precompiles::mul_mod(
                    precompiles::mul_mod(a.0, b.0, p),
                    precompiles::mul_mod(a.1, b.1, p),
                    p,
                ),
                p,
            );
            invertible(precompiles::add_mod(1, t, p), p) && invertible(
                precompiles::sub_mod(1, t, p),
                p,
            )
        }),
    ensures
        ({
            let r = precompiles::edwards_sum(a, b, d, p);
            let all = d as int * ((a.0 as int * b.0 as int) * (a.1 as int * b.1 as int));
            &&& r.0 < p && r.1 < p
            &&& congruent(
                r.0 * (1 + all),
                a.0 as int * b.1 as int + a.1 as int * b.0 as int,
                p,
            )
            &&& congruent(
                r.1 * (1 - all),
                a.1 as int * b.1 as int + a.0 as int * b.0 as int,
                p,
            )
        }),
{
    let xx = precompiles::mul_mod(a.0, b.0, p);
    let yy = precompiles::mul_mod(a.1, b.1, p);
    let xy = precompiles::mul_mod(a.0, b.1, p);
    let yx = precompiles::mul_mod(a.1, b.0, p);
    let q = precompiles::mul_mod(xx, yy, p);
    let t = precompiles::mul_mod(d, q, p);
    field_results_are_congruent(a.0, b.0, p);
    field_results_are_congruent(a.1, b.1, p);
    field_results_are_congruent(a.0, b.1, p);
    field_results_are_congruent(a.1, b.0, p);
    field_results_are_congruent(xx, yy, p);
    field_results_are_congruent(d, q, p);
    let pxx = a.0 as int * b.0 as int;
    let pyy = a.1 as int * b.1 as int;
    let pxy = a.0 as int * b.1 as int;
    let pyx = a.1 as int * b.0 as int;
    lemma_product(xx as int, pxx, yy as int, pyy, p);
    lemma_chain(q as int, xx as int * yy as int, pxx * pyy, p);
    lemma_same(d as int, p);
    lemma_product(d as int, d as int, q as int, pxx * pyy, p);
    let all = d as int * (pxx * pyy);
    lemma_chain(t as int, d as int * q as int, all, p);
    lemma_same(1, p);
    lemma_sum(1, 1, t as int, all, p);
    // The abscissa.
    let n = precompiles::add_mod(xy, yx, p);
    let e = precompiles::add_mod(1, t, p);
    field_results_are_congruent(xy, yx, p);
    field_results_are_congruent(1, t, p);
    lemma_sum(xy as int, pxy, yx as int, pyx, p);
    lemma_chain(n as int, xy as int + yx, pxy + pyx, p);
    lemma_chain(e as int, 1int + t, 1 + all, p);
    lemma_quotient(n, e, p);
    lemma_slope(
        precompiles::mul_mod(n, precompiles::inv_mod(e, p), p),
        n,
        e,
        pxy + pyx,
        1 + all,
        p,
    );
    // The ordinate.
    let m = precompiles::add_mod(yy, xx, p);
    let f = precompiles::sub_mod(1, t, p);
    field_results_are_congruent(yy, xx, p);
    lemma_sum(yy as int, pyy, xx as int, pxx, p);
    lemma_chain(m as int, yy as int + xx, pyy + pxx, p);
    lemma_chain(f as int, 1 - t, 1 - all, p);
    lemma_quotient(m, f, p);
    lemma_slope(
        precompiles::mul_mod(m, precompiles::inv_mod(f, p), p),
        m,
        f,
        pyy + pxx,
        1 - all,
        p,
    );
}

/// The primes of the fields are odd.
proof fn lemma_odd_prime(field: Field)
    ensures
        field.prime() % 2 == 1,
        field.prime() > 3,
{
    field.lemma_prime();
    let words = field.prime_words();
    let rest = bigint::value(words.skip(1));
    assert(field.prime() == words[0] as nat + 0x1_0000_0000 * rest);
    assert(words[0] % 2 == 1);
}

proof fn lemma_negated(y: nat, p: nat)
    requires
        p > 0,
        y < p,
    ensures
        ({
            let r = precompiles::sub_mod(0, y, p);
            &&& r == if y == 0 {
                0
            } else {
                p - y
            }
            &&& congruent(r as int * r as int, y as int * y as int, p)
        }),
{
    let r = precompiles::sub_mod(0, y, p);
    vstd::arithmetic::div_mod::lemma_small_mod(y, p);
    assert(r == (p - y) as nat % p);
    if y > 0 {
        vstd::arithmetic::div_mod::lemma_small_mod((p - y) as nat, p);
        let k = p - 2 * y;
        assert(r as int * r as int - y as int * y as int == k * p) by (nonlinear_arith)
            requires
                r == p - y,
                k == p - 2 * y,
        ;
        lemma_witness(r as int * r as int, y as int * y as int, k, p);
    } else {
        vstd::arithmetic::div_mod::lemma_mod_self_0(p as int);
        lemma_same(0, p);
    }
}

proof fn lemma_root_of_sign(field: Field, y: nat, sign: u32)
    requires
        y < field.prime(),
    ensures
        ({
            let p = field.prime();
            let r = precompiles::root_of_sign(field, y, sign);
            &&& r < p
            &&& r == y || r + y == p || r == 0 && y == 0
            &&& congruent(r as int * r as int, y as int * y as int, p)
            &&& r != 0 && !(field is Bls12381) ==> (r % 2 == 1 <==> sign != 0)
            &&& r != 0 && field is Bls12381 ==> (2 * r > p <==> sign != 0)
        }),
{
    lemma_odd_prime(field);
    lemma_same(y as int * y as int, field.prime());
    lemma_negated(y, field.prime());
}

/// A decompressed point lies on its curve: the square of the ordinate is the cube of the abscissa,
/// plus the linear term, plus the constant. The sign picks the ordinate: the odd one of the two if
/// it is set, on BLS12-381 the larger one. An abscissa that is not reduced has no point.
pub proof fn a_decompressed_point_lies_on_its_curve(field: Field, x: nat, sign: u32)
    ensures
        precompiles::decompressed(field, x, sign) matches Ok(y) ==> {
            let p = field.prime();
            &&& x < p
            &&& y < p
            &&& congruent(
                y as int * y as int,
                x as int * x as int * x as int + field.linear() as int * x as int
                    + field.constant(),
                p,
            )
            &&& y != 0 && !(field is Bls12381) ==> (y % 2 == 1 <==> sign != 0)
            &&& y != 0 && field is Bls12381 ==> (2 * y > p <==> sign != 0)
        },
        x >= field.prime() ==> precompiles::decompressed(field, x, sign) == Err::<nat, CurveError>(
            CurveError::InvalidPoint,
        ),
{
    lemma_odd_prime(field);
    let p = field.prime();
    let rhs = precompiles::curve_rhs(field, x);
    let c = precompiles::pow_mod(rhs, ((p + 1) / 4) as nat, p);
    if precompiles::decompressed(field, x, sign) is Ok {
        let y = precompiles::root_of_sign(field, c, sign);
        lemma_reduced(power::pow(rhs as int, ((p + 1) / 4) as nat), p);
        lemma_root_of_sign(field, c, sign);
        field_results_are_congruent(c, c, p);
        let cc = precompiles::mul_mod(c, c, p);
        assert(cc == rhs);
        lemma_rhs(field, x);
        let full = x as int * x as int * x as int + field.linear() as int * x as int
            + field.constant();
        let k = lemma_unfold(cc as int, c as int * c as int, p);
        assert(c as int * c as int - cc == (-k) * p) by (nonlinear_arith)
            requires
                cc - c as int * c as int == k * p,
        ;
        lemma_witness(c as int * c as int, cc as int, -k, p);
        lemma_chain(y as int * y as int, c as int * c as int, rhs as int, p);
        lemma_chain(y as int * y as int, rhs as int, full, p);
        if y != c {
            assert(y + c == p || y == 0);
        }
    }
}

proof fn lemma_rhs(field: Field, x: nat)
    requires
        field.prime() > 0,
    ensures
        congruent(
            precompiles::curve_rhs(field, x) as int,
            x as int * x as int * x as int + field.linear() as int * x as int + field.constant(),
            field.prime(),
        ),
{
    let p = field.prime();
    let xx = precompiles::mul_mod(x, x, p);
    let xxx = precompiles::mul_mod(xx, x, p);
    let lx = precompiles::mul_mod(field.linear(), x, p);
    let s = precompiles::add_mod(xxx, lx, p);
    field_results_are_congruent(x, x, p);
    field_results_are_congruent(xx, x, p);
    field_results_are_congruent(field.linear(), x, p);
    field_results_are_congruent(xxx, lx, p);
    field_results_are_congruent(s, field.constant(), p);
    let square = x as int * x as int;
    lemma_same(x as int, p);
    lemma_product(xx as int, square, x as int, x as int, p);
    lemma_chain(xxx as int, xx as int * x as int, square * x as int, p);
    let l = field.linear() as int * x as int;
    lemma_sum(xxx as int, square * x as int, lx as int, l, p);
    lemma_chain(s as int, xxx as int + lx, square * x as int + l, p);
    lemma_same(field.constant() as int, p);
    lemma_sum(
        s as int,
        square * x as int + l,
        field.constant() as int,
        field.constant() as int,
        p,
    );
    lemma_chain(
        precompiles::curve_rhs(field, x) as int,
        s as int + field.constant(),
        square * x as int + l + field.constant(),
        p,
    );
}

/// A decompressed Edwards point solves the equation of its curve, multiplied out: the square of the
/// abscissa times one plus `d y y` is `y y - 1`. The sign picks the odd abscissa.
pub proof fn a_decompressed_edwards_point_lies_on_its_curve(y: nat, sign: u32)
    requires
        ({
            let p = Field::Ed25519.prime();
            let d = bigint::value(precompiles::ED25519_D@);
            invertible(
                precompiles::add_mod(
                    precompiles::mul_mod(d, precompiles::mul_mod(y, y, p), p),
                    1,
                    p,
                ),
                p,
            )
        }),
    ensures
        precompiles::edwards_decompressed(y, sign) matches Ok(x) ==> {
            let p = Field::Ed25519.prime();
            let d = bigint::value(precompiles::ED25519_D@) as int;
            &&& x < p
            &&& congruent(
                (x as int * x as int) * (d * (y as int * y as int) + 1),
                y as int * y as int - 1,
                p,
            )
            &&& x != 0 ==> (x % 2 == 1 <==> sign != 0)
        },
{
    lemma_odd_prime(Field::Ed25519);
    let p = Field::Ed25519.prime();
    let d = bigint::value(precompiles::ED25519_D@);
    let yy = precompiles::mul_mod(y, y, p);
    let n = precompiles::sub_mod(yy, 1, p);
    let t = precompiles::mul_mod(d, yy, p);
    let e = precompiles::add_mod(t, 1, p);
    let w = precompiles::mul_mod(n, precompiles::inv_mod(e, p), p);
    let c = precompiles::pow_mod(w, ((p + 3) / 8) as nat, p);
    let f = precompiles::mul_mod(c, precompiles::edwards_unit(), p);
    field_results_are_congruent(y, y, p);
    field_results_are_congruent(yy, 1, p);
    field_results_are_congruent(d, yy, p);
    field_results_are_congruent(t, 1, p);
    lemma_reduced(power::pow(w as int, ((p + 3) / 8) as nat), p);
    field_results_are_congruent(c, precompiles::edwards_unit(), p);
    let square = y as int * y as int;
    lemma_same(1, p);
    lemma_same(d as int, p);
    lemma_sum(yy as int, square, 1, 1, p);
    lemma_chain(n as int, yy - 1, square - 1, p);
    lemma_product(d as int, d as int, yy as int, square, p);
    lemma_chain(t as int, d as int * yy as int, d as int * square, p);
    lemma_sum(t as int, d as int * square, 1, 1, p);
    lemma_chain(e as int, t as int + 1, d as int * square + 1, p);
    lemma_quotient(n, e, p);
    lemma_slope(w, n, e, square - 1, d as int * square + 1, p);
    if precompiles::edwards_decompressed(y, sign) is Ok {
        let root = if precompiles::mul_mod(c, c, p) == w {
            c
        } else {
            f
        };
        let x = precompiles::root_of_sign(Field::Ed25519, root, sign);
        assert(precompiles::mul_mod(root, root, p) == w);
        lemma_root_of_sign(Field::Ed25519, root, sign);
        field_results_are_congruent(root, root, p);
        let k = lemma_unfold(w as int, root as int * root as int, p);
        assert(root as int * root as int - w == (-k) * p) by (nonlinear_arith)
            requires
                w - root as int * root as int == k * p,
        ;
        lemma_witness(root as int * root as int, w as int, -k, p);
        lemma_chain(x as int * x as int, root as int * root as int, w as int, p);
        let den = d as int * square + 1;
        lemma_same(den, p);
        lemma_product(x as int * x as int, w as int, den, den, p);
        lemma_chain((x as int * x as int) * den, w * den, square - 1, p);
    }
}

} // verus!
