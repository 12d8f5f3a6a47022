//! Arithmetic in the prime base field of the test curve.
//!
//! Every field element is a `u64` strictly below [`FIELD_MODULUS`].  The
//! `sf*` spec functions are the mathematical model; each executable
//! operation is proved to compute exactly its model.  Inversion is defined
//! through the unique multiplicative inverse (when one exists) and computed
//! by exhaustive search, which is fast for a modulus this small.

use vstd::arithmetic::div_mod::{
    lemma_add_mod_noop, lemma_mod_bound, lemma_mod_multiples_vanish, lemma_mul_mod_noop_left,
    lemma_mul_mod_noop_right, lemma_small_mod, lemma_sub_mod_noop_right,
};
use vstd::arithmetic::mul::{lemma_mul_is_associative, lemma_mul_is_commutative};
use vstd::prelude::*;

verus! {

/// The prime modulus of the base field.
pub const FIELD_MODULUS: u64 = 1009;

/// Field addition.
pub open spec fn sfadd(a: u64, b: u64) -> u64 {
    ((a + b) % (FIELD_MODULUS as int)) as u64
}

/// Field subtraction.
pub open spec fn sfsub(a: u64, b: u64) -> u64 {
    ((a + FIELD_MODULUS - b) % (FIELD_MODULUS as int)) as u64
}

/// Field negation.
pub open spec fn sfneg(a: u64) -> u64 {
    ((FIELD_MODULUS - a) % (FIELD_MODULUS as int)) as u64
}

/// Field multiplication.
pub open spec fn sfmul(a: u64, b: u64) -> u64 {
    ((a * b) % (FIELD_MODULUS as int)) as u64
}

/// `i` is the multiplicative inverse of `b` modulo the field prime.
pub open spec fn is_inv(b: u64, i: u64) -> bool {
    i < FIELD_MODULUS && (b * i) % (FIELD_MODULUS as int) == 1
}

/// The multiplicative inverse of `b`, or `0` when none exists (only `b == 0`
/// modulo the prime has none).
pub open spec fn sfinv(b: u64) -> u64 {
    if exists|i: u64| is_inv(b, i) {
        choose|i: u64| is_inv(b, i)
    } else {
        0
    }
}

/// Field division: multiplication by the inverse.
pub open spec fn sfdiv(a: u64, b: u64) -> u64 {
    sfmul(a, sfinv(b))
}

/// A value is a reduced field element.
pub open spec fn fe_valid(a: u64) -> bool {
    a < FIELD_MODULUS
}

/// Inverses are unique: a field element has at most one inverse below the
/// modulus.
pub proof fn lemma_inv_unique(b: u64, i: u64, j: u64)
    requires
        is_inv(b, i),
        is_inv(b, j),
    ensures
        i == j,
{
    let p = FIELD_MODULUS as int;
    let bi = b as int;
    let ii = i as int;
    let ji = j as int;
    lemma_small_mod(i as nat, FIELD_MODULUS as nat);
    lemma_small_mod(j as nat, FIELD_MODULUS as nat);
    lemma_mul_mod_noop_right(ii, bi * ji, p);
    assert((ii * ((bi * ji) % p)) % p == (ii * (bi * ji)) % p);
    assert(ii * ((bi * ji) % p) == ii * 1) by (nonlinear_arith)
        requires (bi * ji) % p == 1;
    assert(ii * 1 == ii) by (nonlinear_arith);
    assert(ii % p == (ii * (bi * ji)) % p);
    lemma_mul_is_associative(ii, bi, ji);
    assert((ii * (bi * ji)) % p == ((ii * bi) * ji) % p);
    lemma_mul_mod_noop_left(ii * bi, ji, p);
    assert((((ii * bi) % p) * ji) % p == ((ii * bi) * ji) % p);
    lemma_mul_is_commutative(ii, bi);
    assert((ii * bi) % p == 1);
    assert(1 * ji == ji) by (nonlinear_arith);
    assert(ji % p == ((ii * bi) * ji) % p);
    assert(ii % p == ji % p);
}

/// Executable field addition.
pub fn fadd(a: u64, b: u64) -> (r: u64)
    requires
        fe_valid(a),
        fe_valid(b),
    ensures
        r == sfadd(a, b),
        fe_valid(r),
{
    (a + b) % FIELD_MODULUS
}

/// Executable field subtraction.
pub fn fsub(a: u64, b: u64) -> (r: u64)
    requires
        fe_valid(a),
        fe_valid(b),
    ensures
        r == sfsub(a, b),
        fe_valid(r),
{
    (a + FIELD_MODULUS - b) % FIELD_MODULUS
}

/// Executable field negation.
pub fn fneg(a: u64) -> (r: u64)
    requires
        fe_valid(a),
    ensures
        r == sfneg(a),
        fe_valid(r),
{
    (FIELD_MODULUS - a) % FIELD_MODULUS
}

/// Executable field multiplication.
pub fn fmul(a: u64, b: u64) -> (r: u64)
    requires
        fe_valid(a),
        fe_valid(b),
    ensures
        r == sfmul(a, b),
        fe_valid(r),
{
    proof {
        assert(a * b <= 1008 * 1008) by (nonlinear_arith)
            requires a <= 1008, b <= 1008;
    }
    (a * b) % FIELD_MODULUS
}

/// Executable field inversion by exhaustive search.
pub fn finv(b: u64) -> (r: u64)
    requires
        fe_valid(b),
    ensures
        r == sfinv(b),
        fe_valid(r),
{
    let mut i: u64 = 0;
    while i < FIELD_MODULUS
        invariant
            fe_valid(b),
            i <= FIELD_MODULUS,
            forall|j: u64| j < i ==> !is_inv(b, j),
        decreases FIELD_MODULUS - i,
    {
        proof {
            assert(b * i <= 1008 * 1008) by (nonlinear_arith)
                requires b <= 1008, i <= 1008;
        }
        if (b * i) % FIELD_MODULUS == 1 {
            proof {
                assert(is_inv(b, i));
                let w = choose|w: u64| is_inv(b, w);
                lemma_inv_unique(b, i, w);
            }
            return i;
        }
        i = i + 1;
    }
    proof {
        assert forall|j: u64| !is_inv(b, j) by {
            if j < FIELD_MODULUS {
                assert(!is_inv(b, j));
            }
        }
        assert(!exists|j: u64| is_inv(b, j));
    }
    0
}

/// Executable field division.
pub fn fdiv(a: u64, b: u64) -> (r: u64)
    requires
        fe_valid(a),
        fe_valid(b),
    ensures
        r == sfdiv(a, b),
        fe_valid(r),
{
    let ib = finv(b);
    fmul(a, ib)
}

/// The spec operations stay below the modulus on reduced arguments.
pub proof fn lemma_field_ops_valid(a: u64, b: u64)
    requires
        fe_valid(a),
        fe_valid(b),
    ensures
        fe_valid(sfadd(a, b)),
        fe_valid(sfsub(a, b)),
        fe_valid(sfneg(a)),
        fe_valid(sfmul(a, b)),
        fe_valid(sfinv(a)),
        fe_valid(sfdiv(a, b)),
{
    let p = FIELD_MODULUS as int;
    lemma_mod_bound((a + b) as int, p);
    lemma_mod_bound(a + FIELD_MODULUS - b, p);
    lemma_mod_bound((FIELD_MODULUS - a) as int, p);
    lemma_mod_bound(a as int * b as int, p);
    if exists|i: u64| is_inv(a, i) {
        let w = choose|i: u64| is_inv(a, i);
        assert(sfinv(a) == w);
    }
    lemma_mod_bound(a as int * sfinv(b) as int, p);
}

/// Negation is an involution on reduced elements.
pub proof fn lemma_sfneg_involutive(a: u64)
    requires
        fe_valid(a),
    ensures
        sfneg(sfneg(a)) == a,
{
}

/// Negation has no fixed point but zero.
pub proof fn lemma_sfneg_zero_iff(a: u64)
    requires
        fe_valid(a),
    ensures
        (sfneg(a) == 0) == (a == 0),
{
}

/// Negation distributes over addition.
pub proof fn lemma_sfadd_neg(a: u64, b: u64)
    requires
        fe_valid(a),
        fe_valid(b),
    ensures
        sfadd(sfneg(a), sfneg(b)) == sfneg(sfadd(a, b)),
{
    let p = FIELD_MODULUS as int;
    lemma_add_mod_noop((p - a) as int, (p - b) as int, p);
    lemma_sub_mod_noop_right(p, (a + b) as int, p);
    lemma_mod_multiples_vanish(1, p - a - b, p);
}

/// Negation distributes over subtraction.
pub proof fn lemma_sfsub_neg(a: u64, b: u64)
    requires
        fe_valid(a),
        fe_valid(b),
    ensures
        sfsub(sfneg(a), sfneg(b)) == sfneg(sfsub(a, b)),
{
    let p = FIELD_MODULUS as int;
    lemma_mod_multiples_vanish(1, b - a, p);
    lemma_sub_mod_noop_right(p, a + p - b, p);
    lemma_mod_multiples_vanish(1, b - a - p, p);
    lemma_mod_multiples_vanish(2, b - a - p, p);
}

/// Negating one multiplicand negates the product.
pub proof fn lemma_sfmul_neg_right(a: u64, b: u64)
    requires
        fe_valid(a),
        fe_valid(b),
    ensures
        sfmul(a, sfneg(b)) == sfneg(sfmul(a, b)),
{
    let p = FIELD_MODULUS as int;
    let ai = a as int;
    let bi = b as int;
    lemma_mul_mod_noop_right(ai, p - bi, p);
    assert(ai * (p - bi) == ai * p - ai * bi) by (nonlinear_arith);
    lemma_mod_multiples_vanish(ai, 0 - ai * bi, p);
    assert(p * ai == ai * p) by (nonlinear_arith);
    assert((ai * (p - bi)) % p == (0 - ai * bi) % p);
    lemma_sub_mod_noop_right(p, ai * bi, p);
    lemma_mod_multiples_vanish(1, 0 - ai * bi, p);
    assert((p - (ai * bi) % p) % p == (0 - ai * bi) % p);
}

/// Commutativity of field multiplication.
pub proof fn lemma_sfmul_comm(a: u64, b: u64)
    ensures
        sfmul(a, b) == sfmul(b, a),
{
    lemma_mul_is_commutative(a as int, b as int);
}

/// Negating both multiplicands leaves the product unchanged.
pub proof fn lemma_sfmul_neg_neg(a: u64, b: u64)
    requires
        fe_valid(a),
        fe_valid(b),
    ensures
        sfmul(sfneg(a), sfneg(b)) == sfmul(a, b),
{
    lemma_field_ops_valid(a, b);
    lemma_field_ops_valid(b, a);
    lemma_sfmul_neg_right(sfneg(a), b);
    lemma_sfmul_comm(sfneg(a), b);
    lemma_sfmul_comm(b, a);
    lemma_sfmul_neg_right(b, a);
    lemma_sfneg_involutive(sfmul(a, b));
}

/// Negating the left multiplicand negates the product.
pub proof fn lemma_sfmul_neg_left(a: u64, b: u64)
    requires
        fe_valid(a),
        fe_valid(b),
    ensures
        sfmul(sfneg(a), b) == sfneg(sfmul(a, b)),
{
    lemma_field_ops_valid(a, a);
    lemma_sfmul_comm(sfneg(a), b);
    lemma_sfmul_neg_right(b, a);
    lemma_sfmul_comm(b, a);
}

/// Inversion commutes with negation.
pub proof fn lemma_sfinv_neg(b: u64)
    requires
        fe_valid(b),
    ensures
        sfinv(sfneg(b)) == sfneg(sfinv(b)),
{
    lemma_field_ops_valid(b, b);
    if exists|i: u64| is_inv(b, i) {
        let w = choose|i: u64| is_inv(b, i);
        assert(sfinv(b) == w);
        lemma_field_ops_valid(w, w);
        lemma_sfmul_neg_neg(b, w);
        assert(sfmul(sfneg(b), sfneg(w)) == sfmul(b, w));
        assert((b * w) % (FIELD_MODULUS as int) == 1);
        assert(sfmul(b, w) == 1);
        assert((sfneg(b) * sfneg(w)) % (FIELD_MODULUS as int) == 1);
        assert(is_inv(sfneg(b), sfneg(w)));
        let w2 = choose|i: u64| is_inv(sfneg(b), i);
        lemma_inv_unique(sfneg(b), w2, sfneg(w));
    } else {
        assert forall|j: u64| !is_inv(sfneg(b), j) by {
            if is_inv(sfneg(b), j) {
                lemma_field_ops_valid(j, j);
                lemma_sfmul_neg_neg(sfneg(b), j);
                lemma_sfneg_involutive(b);
                assert(sfmul(b, sfneg(j)) == sfmul(sfneg(b), j));
                assert((sfneg(b) * j) % (FIELD_MODULUS as int) == 1);
                assert(sfmul(sfneg(b), j) == 1);
                assert((b * sfneg(j)) % (FIELD_MODULUS as int) == 1);
                assert(is_inv(b, sfneg(j)));
            }
        }
        assert(!exists|j: u64| is_inv(sfneg(b), j));
        assert(sfinv(sfneg(b)) == 0);
        assert(sfneg(sfinv(b)) == sfneg(0));
    }
}

/// Division by a negated denominator negates the quotient.
pub proof fn lemma_sfdiv_neg_right(n: u64, d: u64)
    requires
        fe_valid(n),
        fe_valid(d),
    ensures
        sfdiv(n, sfneg(d)) == sfneg(sfdiv(n, d)),
{
    lemma_field_ops_valid(d, d);
    lemma_sfinv_neg(d);
    lemma_sfmul_neg_right(n, sfinv(d));
}

/// A negated numerator negates the quotient.
pub proof fn lemma_sfdiv_neg_left(n: u64, d: u64)
    requires
        fe_valid(n),
        fe_valid(d),
    ensures
        sfdiv(sfneg(n), d) == sfneg(sfdiv(n, d)),
{
    lemma_field_ops_valid(d, d);
    lemma_field_ops_valid(n, d);
    lemma_sfmul_comm(sfneg(n), sfinv(d));
    lemma_sfmul_neg_right(sfinv(d), n);
    lemma_sfmul_comm(sfinv(d), n);
}

} // verus!
