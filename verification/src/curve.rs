//! The test curve: a short Weierstrass curve over the small prime field,
//! with a prime-order subgroup of a composite group order.
//!
//! Points are affine coordinates plus a distinguished point at infinity.
//! The spec functions `spt_add`, `spt_neg` and `ssmul` are the mathematical
//! model of the group operations; each executable operation is proved to
//! compute its model exactly.  Membership in the prime-order subgroup is
//! defined as annihilation by the subgroup order.

use crate::field::{
    fadd, fdiv, fe_valid, fmul, fneg, fsub, lemma_field_ops_valid, lemma_sfadd_neg,
    lemma_sfdiv_neg_left, lemma_sfdiv_neg_right, lemma_sfmul_neg_left, lemma_sfmul_neg_neg,
    lemma_sfneg_involutive, lemma_sfneg_zero_iff, lemma_sfsub_neg, sfadd, sfdiv, sfmul, sfneg,
    sfsub,
};
use vstd::prelude::*;

verus! {

/// Coefficient `a` of the curve equation `y^2 = x^3 + a*x + b`.
pub const CURVE_A: u64 = 1;

/// Coefficient `b` of the curve equation.
pub const CURVE_B: u64 = 8;

/// The prime order of the subgroup commitments must lie in.
pub const SUBGROUP_ORDER: u64 = 251;

/// The cofactor of the subgroup: the full group has order
/// `COFACTOR * SUBGROUP_ORDER`.
pub const COFACTOR: u64 = 4;

/// An elliptic-curve point in affine form, or the point at infinity.
#[derive(Clone, Copy, Debug, PartialEq, Eq, Structural)]
pub enum Point {
    Infinity,
    Affine { x: u64, y: u64 },
}

/// Both coordinates of a point are reduced field elements.
pub open spec fn pt_valid(p: Point) -> bool {
    match p {
        Point::Infinity => true,
        Point::Affine { x, y } => fe_valid(x) && fe_valid(y),
    }
}

/// The point satisfies the curve equation.
pub open spec fn spt_on_curve(p: Point) -> bool {
    match p {
        Point::Infinity => true,
        Point::Affine { x, y } => sfmul(y, y) == sfadd(
            sfadd(sfmul(sfmul(x, x), x), sfmul(CURVE_A, x)),
            CURVE_B,
        ),
    }
}

/// Point negation: mirror across the x-axis.
pub open spec fn spt_neg(p: Point) -> Point {
    match p {
        Point::Infinity => Point::Infinity,
        Point::Affine { x, y } => Point::Affine { x, y: sfneg(y) },
    }
}

/// The x-coordinate of a point; `0` for the point at infinity.
pub open spec fn pt_x(p: Point) -> u64 {
    match p {
        Point::Infinity => 0,
        Point::Affine { x, .. } => x,
    }
}

/// Chord-and-tangent point addition.
pub open spec fn spt_add(p: Point, q: Point) -> Point {
    match (p, q) {
        (Point::Infinity, _) => q,
        (_, Point::Infinity) => p,
        (Point::Affine { x: x1, y: y1 }, Point::Affine { x: x2, y: y2 }) => {
            if x1 == x2 {
                if sfadd(y1, y2) == 0 {
                    Point::Infinity
                } else if y1 == y2 {
                    let l = sfdiv(sfadd(sfmul(3, sfmul(x1, x1)), CURVE_A), sfadd(y1, y1));
                    let x3 = sfsub(sfsub(sfmul(l, l), x1), x2);
                    Point::Affine { x: x3, y: sfsub(sfmul(l, sfsub(x1, x3)), y1) }
                } else {
                    Point::Infinity
                }
            } else {
                let l = sfdiv(sfsub(y2, y1), sfsub(x2, x1));
                let x3 = sfsub(sfsub(sfmul(l, l), x1), x2);
                Point::Affine { x: x3, y: sfsub(sfmul(l, sfsub(x1, x3)), y1) }
            }
        },
    }
}

/// Scalar multiplication by repeated addition.
pub open spec fn ssmul(k: nat, p: Point) -> Point
    decreases k,
{
    if k == 0 {
        Point::Infinity
    } else {
        spt_add(ssmul((k - 1) as nat, p), p)
    }
}

/// The point lies in the prime-order subgroup.
pub open spec fn sin_subgroup(p: Point) -> bool {
    ssmul(SUBGROUP_ORDER as nat, p) == Point::Infinity
}

/// A fixed generator of the prime-order subgroup.
pub open spec fn spec_generator() -> Point {
    Point::Affine { x: 506, y: 72 }
}

/// Addition of valid points yields a valid point.
pub proof fn lemma_spt_add_valid(p: Point, q: Point)
    requires
        pt_valid(p),
        pt_valid(q),
    ensures
        pt_valid(spt_add(p, q)),
{
    match (p, q) {
        (Point::Affine { x: x1, y: y1 }, Point::Affine { x: x2, y: y2 }) => {
            if x1 == x2 {
                if sfadd(y1, y2) == 0 {
                } else if y1 == y2 {
                    lemma_field_ops_valid(x1, x1);
                    lemma_field_ops_valid(sfmul(x1, x1), sfmul(x1, x1));
                    lemma_field_ops_valid(3, sfmul(x1, x1));
                    lemma_field_ops_valid(sfmul(3, sfmul(x1, x1)), CURVE_A);
                    lemma_field_ops_valid(y1, y1);
                    let l = sfdiv(sfadd(sfmul(3, sfmul(x1, x1)), CURVE_A), sfadd(y1, y1));
                    lemma_field_ops_valid(
                        sfadd(sfmul(3, sfmul(x1, x1)), CURVE_A),
                        sfadd(y1, y1),
                    );
                    lemma_field_ops_valid(l, l);
                    lemma_field_ops_valid(sfmul(l, l), x1);
                    lemma_field_ops_valid(sfsub(sfmul(l, l), x1), x2);
                    let x3 = sfsub(sfsub(sfmul(l, l), x1), x2);
                    lemma_field_ops_valid(x1, x3);
                    lemma_field_ops_valid(l, sfsub(x1, x3));
                    lemma_field_ops_valid(sfmul(l, sfsub(x1, x3)), y1);
                }
            } else {
                lemma_field_ops_valid(y2, y1);
                lemma_field_ops_valid(x2, x1);
                let l = sfdiv(sfsub(y2, y1), sfsub(x2, x1));
                lemma_field_ops_valid(sfsub(y2, y1), sfsub(x2, x1));
                lemma_field_ops_valid(l, l);
                lemma_field_ops_valid(sfmul(l, l), x1);
                lemma_field_ops_valid(sfsub(sfmul(l, l), x1), x2);
                let x3 = sfsub(sfsub(sfmul(l, l), x1), x2);
                lemma_field_ops_valid(x1, x3);
                lemma_field_ops_valid(l, sfsub(x1, x3));
                lemma_field_ops_valid(sfmul(l, sfsub(x1, x3)), y1);
            }
        },
        _ => {},
    }
}

/// Scalar multiples of valid points are valid.
pub proof fn lemma_ssmul_valid(k: nat, p: Point)
    requires
        pt_valid(p),
    ensures
        pt_valid(ssmul(k, p)),
    decreases k,
{
    if k > 0 {
        lemma_ssmul_valid((k - 1) as nat, p);
        lemma_spt_add_valid(ssmul((k - 1) as nat, p), p);
    }
}

/// Every scalar multiple of the identity is the identity, so the point at
/// infinity lies in the subgroup.
pub proof fn lemma_ssmul_infinity(k: nat)
    ensures
        ssmul(k, Point::Infinity) == Point::Infinity,
    decreases k,
{
    if k > 0 {
        lemma_ssmul_infinity((k - 1) as nat);
    }
}

/// Negating a point negates both output coordinates of the addition tail.
proof fn lemma_tail_neg(l: u64, x1: u64, x2: u64, y1: u64)
    requires
        fe_valid(l),
        fe_valid(x1),
        fe_valid(x2),
        fe_valid(y1),
    ensures
        ({
            let x3 = sfsub(sfsub(sfmul(l, l), x1), x2);
            sfsub(sfsub(sfmul(sfneg(l), sfneg(l)), x1), x2) == x3 && sfsub(
                sfmul(sfneg(l), sfsub(x1, x3)),
                sfneg(y1),
            ) == sfneg(sfsub(sfmul(l, sfsub(x1, x3)), y1))
        }),
{
    lemma_sfmul_neg_neg(l, l);
    let x3 = sfsub(sfsub(sfmul(l, l), x1), x2);
    lemma_field_ops_valid(sfmul(l, l), x1);
    lemma_field_ops_valid(sfsub(sfmul(l, l), x1), x2);
    lemma_field_ops_valid(x1, x3);
    lemma_sfmul_neg_left(l, sfsub(x1, x3));
    lemma_field_ops_valid(l, sfsub(x1, x3));
    lemma_sfsub_neg(sfmul(l, sfsub(x1, x3)), y1);
}

/// Negation is a group homomorphism: the negation of a sum is the sum of
/// the negations.
pub proof fn lemma_spt_add_neg(p: Point, q: Point)
    requires
        pt_valid(p),
        pt_valid(q),
    ensures
        spt_add(spt_neg(p), spt_neg(q)) == spt_neg(spt_add(p, q)),
{
    match (p, q) {
        (Point::Affine { x: x1, y: y1 }, Point::Affine { x: x2, y: y2 }) => {
            lemma_sfadd_neg(y1, y2);
            lemma_field_ops_valid(y1, y2);
            lemma_sfneg_zero_iff(sfadd(y1, y2));
            if x1 == x2 {
                if sfadd(y1, y2) == 0 {
                    assert(sfadd(sfneg(y1), sfneg(y2)) == 0);
                } else if y1 == y2 {
                    assert(sfadd(sfneg(y1), sfneg(y2)) != 0);
                    let n = sfadd(sfmul(3, sfmul(x1, x1)), CURVE_A);
                    let d = sfadd(y1, y1);
                    lemma_field_ops_valid(x1, x1);
                    lemma_field_ops_valid(3, sfmul(x1, x1));
                    lemma_field_ops_valid(sfmul(3, sfmul(x1, x1)), CURVE_A);
                    lemma_field_ops_valid(y1, y1);
                    lemma_sfdiv_neg_right(n, d);
                    lemma_field_ops_valid(n, d);
                    lemma_tail_neg(sfdiv(n, d), x1, x2, y1);
                } else {
                    lemma_sfneg_involutive(y1);
                    lemma_sfneg_involutive(y2);
                }
            } else {
                let m = sfsub(y2, y1);
                let d = sfsub(x2, x1);
                lemma_field_ops_valid(y2, y1);
                lemma_field_ops_valid(x2, x1);
                lemma_sfsub_neg(y2, y1);
                lemma_sfdiv_neg_left(m, d);
                lemma_field_ops_valid(m, d);
                lemma_tail_neg(sfdiv(m, d), x1, x2, y1);
            }
        },
        _ => {},
    }
}

/// Scalar multiplication commutes with negation.
pub proof fn lemma_ssmul_neg(k: nat, p: Point)
    requires
        pt_valid(p),
    ensures
        ssmul(k, spt_neg(p)) == spt_neg(ssmul(k, p)),
    decreases k,
{
    if k > 0 {
        lemma_ssmul_neg((k - 1) as nat, p);
        lemma_ssmul_valid((k - 1) as nat, p);
        lemma_spt_add_neg(ssmul((k - 1) as nat, p), p);
    }
}

/// A point lies in the prime-order subgroup exactly when its negation does.
pub proof fn lemma_neg_in_subgroup(p: Point)
    requires
        pt_valid(p),
    ensures
        sin_subgroup(spt_neg(p)) == sin_subgroup(p),
{
    lemma_ssmul_neg(SUBGROUP_ORDER as nat, p);
}

/// A point satisfies the curve equation exactly when its negation does.
pub proof fn lemma_neg_on_curve(p: Point)
    requires
        pt_valid(p),
    ensures
        spt_on_curve(spt_neg(p)) == spt_on_curve(p),
{
    match p {
        Point::Affine { x, y } => {
            lemma_sfmul_neg_neg(y, y);
        },
        Point::Infinity => {},
    }
}

/// A point and its negation share the x-coordinate: compression cannot
/// tell them apart.
pub proof fn lemma_neg_shares_x(p: Point)
    ensures
        pt_x(spt_neg(p)) == pt_x(p),
        spt_neg(p) is Infinity <==> p is Infinity,
{
}

/// Executable point negation.
pub fn pt_neg(p: Point) -> (r: Point)
    requires
        pt_valid(p),
    ensures
        r == spt_neg(p),
        pt_valid(r),
{
    match p {
        Point::Infinity => Point::Infinity,
        Point::Affine { x, y } => Point::Affine { x, y: fneg(y) },
    }
}

/// Executable point addition.
pub fn pt_add(p: Point, q: Point) -> (r: Point)
    requires
        pt_valid(p),
        pt_valid(q),
    ensures
        r == spt_add(p, q),
        pt_valid(r),
{
    match (p, q) {
        (Point::Infinity, _) => q,
        (_, Point::Infinity) => p,
        (Point::Affine { x: x1, y: y1 }, Point::Affine { x: x2, y: y2 }) => {
            if x1 == x2 {
                if fadd(y1, y2) == 0 {
                    Point::Infinity
                } else if y1 == y2 {
                    let l = fdiv(fadd(fmul(3, fmul(x1, x1)), CURVE_A), fadd(y1, y1));
                    let x3 = fsub(fsub(fmul(l, l), x1), x2);
                    Point::Affine { x: x3, y: fsub(fmul(l, fsub(x1, x3)), y1) }
                } else {
                    Point::Infinity
                }
            } else {
                let l = fdiv(fsub(y2, y1), fsub(x2, x1));
                let x3 = fsub(fsub(fmul(l, l), x1), x2);
                Point::Affine { x: x3, y: fsub(fmul(l, fsub(x1, x3)), y1) }
            }
        },
    }
}

/// Executable scalar multiplication by repeated addition.
pub fn scalar_mul(k: u64, p: Point) -> (r: Point)
    requires
        pt_valid(p),
    ensures
        r == ssmul(k as nat, p),
        pt_valid(r),
{
    let mut acc = Point::Infinity;
    let mut i: u64 = 0;
    while i < k
        invariant
            pt_valid(p),
            pt_valid(acc),
            i <= k,
            acc == ssmul(i as nat, p),
        decreases k - i,
    {
        acc = pt_add(acc, p);
        i = i + 1;
    }
    acc
}

/// Executable curve-membership test.
pub fn is_on_curve(p: Point) -> (r: bool)
    requires
        pt_valid(p),
    ensures
        r == spt_on_curve(p),
{
    match p {
        Point::Infinity => true,
        Point::Affine { x, y } => {
            let lhs = fmul(y, y);
            let rhs = fadd(fadd(fmul(fmul(x, x), x), fmul(CURVE_A, x)), CURVE_B);
            lhs == rhs
        },
    }
}

/// Executable subgroup-membership test: multiply by the subgroup order and
/// compare against the identity.
pub fn is_in_subgroup(p: Point) -> (r: bool)
    requires
        pt_valid(p),
    ensures
        r == sin_subgroup(p),
{
    let m = scalar_mul(SUBGROUP_ORDER, p);
    matches!(m, Point::Infinity)
}

/// The fixed subgroup generator, used to derive commitment bases.
pub fn subgroup_generator() -> (r: Point)
    ensures
        r == spec_generator(),
        pt_valid(r),
{
    Point::Affine { x: 506, y: 72 }
}

} // verus!
