//! The indifferentiable hash to the curve `y^2 = x^3 + b`: the field hash
//! `eta`, the rational map `phi` onto the Calabi-Yau threefold, and the
//! orchestration around the per-curve auxiliary map `h'`.
//!
//! Everything is stated over residues modulo the curve's base-field prime
//! `q`. A curve plugs in through the `IndifferentiableHash` trait: its
//! constants, its trusted field arithmetic, and its variant of `h'`.
use vstd::prelude::*;
use sha2::Digest;
use crate::arith::be_val;
use crate::arith::pow_mod;
use crate::arith::lemma_be_val_push;
use crate::arith::cube_mod;
use crate::arith::lemma_cube_mod_unreduced;
use crate::arith::lemma_cube_mod_product;
use crate::arith::lemma_mod_cancel;
use crate::field::Fp;
use crate::field::fp_is_zero;
use crate::field::copy_bytes;

verus! {

/// What the SHA-512 compression of a byte string is. A function of the
/// input alone; its value is not restated here.
pub uninterp spec fn sha512_of(input: Seq<u8>) -> Seq<u8>;

/// Relies on sha2's SHA-512: a 64-byte digest that depends on the input
/// bytes alone.
#[verifier::external_body]
fn sha512(input: &Vec<u8>) -> (r: Vec<u8>)
    ensures
        r@ == sha512_of(input@),
        r@.len() == 64,
{
    let mut h = sha2::Sha512::new();
    h.update(input.as_slice());
    Vec::from(h.finalize().as_slice())
}

/// A point of the curve, as residues: the point at infinity, or affine
/// coordinates.
pub enum PointVal {
    Infinity,
    Affine(nat, nat),
}

/// A point of the curve `y^2 = x^3 + b`: the identity, or affine
/// coordinates in the base field.
pub enum CurvePoint {
    Infinity,
    Affine { x: Fp, y: Fp },
}

impl CurvePoint {
    /// The residues this point stands for.
    pub open spec fn v(&self) -> PointVal {
        match self {
            CurvePoint::Infinity => PointVal::Infinity,
            CurvePoint::Affine { x, y } => PointVal::Affine(x.val(), y.val()),
        }
    }

    /// Canonical form over the field of prime `q`.
    pub open spec fn wf(&self, q: nat) -> bool {
        match self {
            CurvePoint::Infinity => true,
            CurvePoint::Affine { x, y } => x.wf(q) && y.wf(q),
        }
    }
}

/// The residues of an optional affine pair.
pub open spec fn pair_val(r: Option<(Fp, Fp)>) -> Option<(nat, nat)> {
    match r {
        Option::Some((x, y)) => Option::Some((x.val(), y.val())),
        Option::None => Option::None,
    }
}


/// The relations that place a parameter tuple of `h'` on the threefold:
/// the numerators are canonical residues and satisfy
/// `n1^2 = a*u + b*v` and `n2^2 = b_tw*u + b*v` over the twist
/// parameters `a = xi*t1^3` and `b_tw = xi^2*t2^3`, with `v = d^2` and
/// `u = n0^2 - b*v`. Every output of `phi` satisfies them
/// (`lemma_phi_threefold`), and they are what carries a branch of `h'`
/// onto the curve.
pub open spec fn threefold_rel(
    q: nat,
    b: nat,
    xi: nat,
    n0: nat,
    n1: nat,
    n2: nat,
    d: nat,
    t1: nat,
    t2: nat,
) -> bool {
    let qi = q as int;
    let s1 = ((((t1 * t1) * t1) as int) % qi) as nat;
    let s2 = ((((t2 * t2) * t2) as int) % qi) as nat;
    let a = (xi * s1) % q;
    let bt = ((((xi * xi) % q) as int) * (s2 as int)) % qi;
    let v = (d * d) % q;
    let u = ((((n0 * n0) % q) as int - ((b * v) % q) as int) % qi) as nat;
    &&& n0 < q
    &&& n1 < q
    &&& n2 < q
    &&& d < q
    &&& (n1 * n1) % q == ((a * u + b * v) as int % qi) as nat
    &&& (n2 * n2) % q == ((bt * u + b * (v as int)) % qi) as nat
}

/// The threefold relations, over a curve's own parameters.
pub open spec fn threefold_ok<C: IndifferentiableHash>(
    n0: nat,
    n1: nat,
    n2: nat,
    d: nat,
    t1: nat,
    t2: nat,
) -> bool {
    threefold_rel(C::q(), C::b_v(), C::xi_v(), n0, n1, n2, d, t1, t2)
}

/// A curve family served by this hash: its constants, its base-field
/// arithmetic, and its form of the auxiliary map `h'`.
///
/// The arithmetic methods are implemented per curve as thin calls into an
/// external field library; their contracts state ordinary modular
/// arithmetic on canonical residues.
pub trait IndifferentiableHash: Sized {
    /// The prime modulus of the base field.
    spec fn q() -> nat;

    /// The curve coefficient `b` of `y^2 = x^3 + b`.
    spec fn b_v() -> nat;

    /// A square root of `b`: `sb^2 = b (mod q)`.
    spec fn sb_v() -> nat;

    /// A primitive cube root of unity in the base field.
    spec fn w_v() -> nat;

    /// A primitive ninth root of unity with `z^3 = w`, consulted by `h'`
    /// on BLS12-381; the sentinel zero on BLS12-377, where `h'` never
    /// reads it.
    spec fn z_v() -> nat;

    /// A cube root of `b / z^2`, recorded with the other constants; no
    /// stage of the map consults it. A cube root of `b / z` itself does
    /// not exist in these fields: for every `z` with `z^3 = w`, the
    /// residue `b / z` is a cubic non-residue (its cube character is a
    /// primitive cube root of unity), so `b / z^2` carries the nearest
    /// root that the field admits.
    spec fn c_v() -> nat;

    /// The exponent of the cube-root extraction inside `h'`.
    spec fn m_v() -> nat;

    /// The twist unit: the non-cube `xi` with `phi` mapping onto the
    /// threefold of the twists `y^2 = x^3 + b*xi*s1` and
    /// `y^2 = x^3 + b*xi^2*s2`. It is `z` on BLS12-381 and `w` on
    /// BLS12-377.
    spec fn xi_v() -> nat;

    /// x-coordinate of the fixed generator of the prime-order subgroup.
    spec fn gen_x() -> nat;

    /// y-coordinate of the fixed generator of the prime-order subgroup.
    spec fn gen_y() -> nat;

    /// The auxiliary map `h'` on residues: the affine point, or nothing
    /// on the branches that a consistent parameter set never reaches.
    spec fn h_prime_s(n0: nat, n1: nat, n2: nat, d: nat, t1: nat, t2: nat) -> Option<(nat, nat)>;

    /// The parameters are canonical residues, and the modulus is large
    /// enough for the small integer constants of the map.
    proof fn lemma_params()
        ensures
            Self::q() > 3,
            0 < Self::b_v() < Self::q(),
            0 < Self::sb_v() < Self::q(),
            0 < Self::w_v() < Self::q(),
            Self::z_v() < Self::q(),
            Self::c_v() < Self::q(),
            0 < Self::m_v() < Self::q(),
            0 < Self::xi_v() < Self::q(),
            0 < Self::gen_x() < Self::q(),
            0 < Self::gen_y() < Self::q(),
            (Self::sb_v() * Self::sb_v()) % Self::q() == Self::b_v(),
            (Self::gen_y() * Self::gen_y()) % Self::q() == ((Self::gen_x() * Self::gen_x())
                * Self::gen_x() + Self::b_v()) % Self::q(),
    ;

    /// Modular addition in the base field.
    fn fq_add(a: &Fp, b: &Fp) -> (r: Fp)
        requires
            a.wf(Self::q()),
            b.wf(Self::q()),
        ensures
            r.wf(Self::q()),
            r.val() == (a.val() + b.val()) % Self::q(),
    ;

    /// Modular subtraction in the base field.
    fn fq_sub(a: &Fp, b: &Fp) -> (r: Fp)
        requires
            a.wf(Self::q()),
            b.wf(Self::q()),
        ensures
            r.wf(Self::q()),
            r.val() == (a.val() - b.val()) % (Self::q() as int),
    ;

    /// Modular multiplication in the base field.
    fn fq_mul(a: &Fp, b: &Fp) -> (r: Fp)
        requires
            a.wf(Self::q()),
            b.wf(Self::q()),
        ensures
            r.wf(Self::q()),
            r.val() == (a.val() * b.val()) % Self::q(),
    ;

    /// Modular exponentiation in the base field, by an exponent given as
    /// a canonical residue.
    fn fq_pow(a: &Fp, e: &Fp) -> (r: Fp)
        requires
            a.wf(Self::q()),
            e.wf(Self::q()),
        ensures
            r.wf(Self::q()),
            r.val() == pow_mod(a.val(), e.val(), Self::q()),
    ;

    /// Multiplicative inverse of a non-zero residue.
    fn fq_inv(a: &Fp) -> (r: Fp)
        requires
            a.wf(Self::q()),
            a.val() != 0,
        ensures
            r.wf(Self::q()),
            (a.val() * r.val()) % Self::q() == 1,
    ;

    /// A big-endian byte string, of any length, reduced to a residue.
    fn fq_reduce(bytes: &Vec<u8>) -> (r: Fp)
        ensures
            r.wf(Self::q()),
            r.val() == be_val(bytes@) % Self::q(),
    ;

    /// The constant `b` as a field element.
    fn b_fp() -> (r: Fp)
        ensures
            r.wf(Self::q()),
            r.val() == Self::b_v(),
    ;

    /// The constant `sb` as a field element.
    fn sb_fp() -> (r: Fp)
        ensures
            r.wf(Self::q()),
            r.val() == Self::sb_v(),
    ;

    /// The constant `w` as a field element.
    fn w_fp() -> (r: Fp)
        ensures
            r.wf(Self::q()),
            r.val() == Self::w_v(),
    ;

    /// The constant `z` as a field element.
    fn z_fp() -> (r: Fp)
        ensures
            r.wf(Self::q()),
            r.val() == Self::z_v(),
    ;

    /// The exponent `m` as a field element.
    fn m_fp() -> (r: Fp)
        ensures
            r.wf(Self::q()),
            r.val() == Self::m_v(),
    ;

    /// The twist unit `xi` as a field element.
    fn xi_fp() -> (r: Fp)
        ensures
            r.wf(Self::q()),
            r.val() == Self::xi_v(),
    ;

    /// The generator's x-coordinate as a field element.
    fn gen_x_fp() -> (r: Fp)
        ensures
            r.wf(Self::q()),
            r.val() == Self::gen_x(),
    ;

    /// The generator's y-coordinate as a field element.
    fn gen_y_fp() -> (r: Fp)
        ensures
            r.wf(Self::q()),
            r.val() == Self::gen_y(),
    ;

    /// The auxiliary map `h'` from the threefold to the curve. Its
    /// preconditions, `d != 0` and the branch structure of a consistent
    /// parameter set, are not demanded here: on a branch that consistent
    /// parameters never reach it returns nothing instead, and the
    /// orchestration folds that into the identity point. A parameter set
    /// inconsistent with the field would therefore surface as the
    /// identity, the same value as the degenerate zero set, rather than
    /// as an abort.
    fn h_prime(n0: &Fp, n1: &Fp, n2: &Fp, d: &Fp, t1: &Fp, t2: &Fp) -> (r: Option<(Fp, Fp)>)
        requires
            n0.wf(Self::q()),
            n1.wf(Self::q()),
            n2.wf(Self::q()),
            d.wf(Self::q()),
            t1.wf(Self::q()),
            t2.wf(Self::q()),
        ensures
            match r {
                Option::Some((x, y)) => x.wf(Self::q()) && y.wf(Self::q()),
                Option::None => true,
            },
            pair_val(r) == Self::h_prime_s(n0.val(), n1.val(), n2.val(), d.val(), t1.val(), t2.val()),
            threefold_rel(
                Self::q(),
                Self::b_v(),
                Self::xi_v(),
                n0.val(),
                n1.val(),
                n2.val(),
                d.val(),
                t1.val(),
                t2.val(),
            ) ==> (match r {
                Option::Some((x, y)) => curve_eq(Self::q(), Self::b_v(), x.val(), y.val()),
                Option::None => true,
            }),
    ;
}

/// The field hash: the input with one suffix byte `'0'`, and with one
/// suffix byte `'1'`, each hashed by SHA-512 and reduced modulo `q`.
pub open spec fn eta_s<C: IndifferentiableHash>(input: Seq<u8>) -> (nat, nat) {
    (
        be_val(sha512_of(input.push(0x30))) % C::q(),
        be_val(sha512_of(input.push(0x31))) % C::q(),
    )
}

/// The rational map onto the threefold, as residues:
/// `s1 = t1^3`, `s2 = t2^3`, `a = xi*s1`, `b = xi^2*s2`, and the
/// numerators, denominator and product `s1*s2` of the parametrization.
pub open spec fn phi_s<C: IndifferentiableHash>(t1: nat, t2: nat) -> (nat, nat, nat, nat, nat) {
    let q = C::q() as int;
    let s1 = (((t1 * t1) * t1) as int) % q;
    let s2 = (((t2 * t2) * t2) as int) % q;
    let a = ((C::xi_v() as int) * s1) % q;
    let b = ((((C::xi_v() * C::xi_v()) % C::q()) as int) * s2) % q;
    let sb = C::sb_v() as int;
    let n0 = (sb * (a * a - 2 * (a * b) + 2 * a + b * b + 2 * b - 3)) % q;
    let n1 = (sb * (-3 * (a * a) + 2 * (a * b) + 2 * a + b * b - 2 * b + 1)) % q;
    let n2 = (sb * (a * a + 2 * (a * b) - 2 * a - 3 * (b * b) + 2 * b + 1)) % q;
    let d = (a * a - 2 * (a * b) - 2 * a + b * b - 2 * b + 1) % q;
    let s1s2 = (s1 * s2) % q;
    (n0 as nat, n1 as nat, n2 as nat, d as nat, s1s2 as nat)
}

/// The map from a field pair to the curve: the degenerate zero set of
/// `phi` goes to the identity, its pole locus to the fixed generator,
/// and everything else through `h'`.
pub open spec fn map_to_curve_s<C: IndifferentiableHash>(t1: nat, t2: nat) -> PointVal {
    let (n0, n1, n2, d, s1s2) = phi_s::<C>(t1, t2);
    if s1s2 == 0 {
        PointVal::Infinity
    } else if d == 0 {
        PointVal::Affine(C::gen_x(), C::gen_y())
    } else {
        match C::h_prime_s(n0, n1, n2, d, t1, t2) {
            Option::Some((x, y)) => PointVal::Affine(x, y),
            Option::None => PointVal::Infinity,
        }
    }
}

/// The map from a field pair to the curve without the degenerate-case
/// checks: straight through `h'`.
pub open spec fn map_to_curve_unchecked_s<C: IndifferentiableHash>(t1: nat, t2: nat) -> PointVal {
    let (n0, n1, n2, d, s1s2) = phi_s::<C>(t1, t2);
    match C::h_prime_s(n0, n1, n2, d, t1, t2) {
        Option::Some((x, y)) => PointVal::Affine(x, y),
        Option::None => PointVal::Infinity,
    }
}

/// The whole hash: `eta`, then the map to the curve.
pub open spec fn hash_to_curve_s<C: IndifferentiableHash>(input: Seq<u8>) -> PointVal {
    let (t1, t2) = eta_s::<C>(input);
    map_to_curve_s::<C>(t1, t2)
}

/// The whole hash without the degenerate-case checks.
pub open spec fn hash_to_curve_unchecked_s<C: IndifferentiableHash>(input: Seq<u8>) -> PointVal {
    let (t1, t2) = eta_s::<C>(input);
    map_to_curve_unchecked_s::<C>(t1, t2)
}

/// Whether `(x, y)` satisfies the curve equation `y^2 = x^3 + b` over
/// the base field.
pub open spec fn curve_eq(q: nat, b: nat, x: nat, y: nat) -> bool {
    (y * y) % q == (((x * x) * x) + b) % q
}

/// Whether `(x, y)` satisfies the curve equation of the curve `C`.
pub open spec fn on_curve_s<C: IndifferentiableHash>(x: nat, y: nat) -> bool {
    curve_eq(C::q(), C::b_v(), x, y)
}

/// The field hash `eta`: two SHA-512 digests of the input, with suffix
/// bytes `'0'` and `'1'`, reduced to field elements.
pub fn eta<C: IndifferentiableHash>(input: &Vec<u8>) -> (r: (Fp, Fp))
    ensures
        r.0.wf(C::q()),
        r.1.wf(C::q()),
        (r.0.val(), r.1.val()) == eta_s::<C>(input@),
{
    let mut s0: Vec<u8> = copy_bytes(input);
    s0.push(0x30);
    let mut s1: Vec<u8> = copy_bytes(input);
    s1.push(0x31);
    let d0 = sha512(&s0);
    let d1 = sha512(&s1);
    let t1 = C::fq_reduce(&d0);
    let t2 = C::fq_reduce(&d1);
    (t1, t2)
}

/// The residue of the small constant `k`, for `k` below the modulus.
pub fn fq_small<C: IndifferentiableHash>(k: u8) -> (r: Fp)
    requires
        k < C::q(),
    ensures
        r.wf(C::q()),
        r.val() == k,
{
    broadcast use lemma_be_val_push;

    let mut bytes: Vec<u8> = Vec::new();
    bytes.push(k);
    proof {
        assert(bytes@ =~= Seq::empty().push(k));
        C::lemma_params();
        vstd::arithmetic::div_mod::lemma_small_mod(k as nat, C::q());
    }
    C::fq_reduce(&bytes)
}


/// The rational map `phi`. Returns the numerators, the denominator and
/// the product `s1*s2`, in that order.
#[verifier::rlimit(60)]
pub fn phi<C: IndifferentiableHash>(t1: &Fp, t2: &Fp) -> (r: (Fp, Fp, Fp, Fp, Fp))
    requires
        t1.wf(C::q()),
        t2.wf(C::q()),
    ensures
        r.0.wf(C::q()),
        r.1.wf(C::q()),
        r.2.wf(C::q()),
        r.3.wf(C::q()),
        r.4.wf(C::q()),
        (r.0.val(), r.1.val(), r.2.val(), r.3.val(), r.4.val()) == phi_s::<C>(
            t1.val(),
            t2.val(),
        ),
{
    proof {
        C::lemma_params();
    }
    let xi = C::xi_fp();
    let sb = C::sb_fp();
    let t1sq = C::fq_mul(t1, t1);
    let s1 = C::fq_mul(&t1sq, t1);
    let t2sq = C::fq_mul(t2, t2);
    let s2 = C::fq_mul(&t2sq, t2);
    let a = C::fq_mul(&xi, &s1);
    let xi2 = C::fq_mul(&xi, &xi);
    let bb = C::fq_mul(&xi2, &s2);
    let aa = C::fq_mul(&a, &a);
    let ab = C::fq_mul(&a, &bb);
    let b2 = C::fq_mul(&bb, &bb);
    let two_ab = C::fq_add(&ab, &ab);
    let two_a = C::fq_add(&a, &a);
    let two_b = C::fq_add(&bb, &bb);
    let one = fq_small::<C>(1);
    let three = fq_small::<C>(3);
    let u1 = C::fq_sub(&aa, &two_ab);
    let u2 = C::fq_add(&u1, &two_a);
    let u3 = C::fq_add(&u2, &b2);
    let u4 = C::fq_add(&u3, &two_b);
    let u5 = C::fq_sub(&u4, &three);
    let n0 = C::fq_mul(&sb, &u5);
    let aa2 = C::fq_add(&aa, &aa);
    let aa3 = C::fq_add(&aa2, &aa);
    let v1 = C::fq_sub(&two_ab, &aa3);
    let v2 = C::fq_add(&v1, &two_a);
    let v3 = C::fq_add(&v2, &b2);
    let v4 = C::fq_sub(&v3, &two_b);
    let v5 = C::fq_add(&v4, &one);
    let n1 = C::fq_mul(&sb, &v5);
    let b22 = C::fq_add(&b2, &b2);
    let b23 = C::fq_add(&b22, &b2);
    let w1 = C::fq_add(&aa, &two_ab);
    let w2 = C::fq_sub(&w1, &two_a);
    let w3 = C::fq_sub(&w2, &b23);
    let w4 = C::fq_add(&w3, &two_b);
    let w5 = C::fq_add(&w4, &one);
    let n2 = C::fq_mul(&sb, &w5);
    let x2 = C::fq_sub(&u1, &two_a);
    let x3 = C::fq_add(&x2, &b2);
    let x4 = C::fq_sub(&x3, &two_b);
    let d = C::fq_add(&x4, &one);
    let s1s2 = C::fq_mul(&s1, &s2);
    proof {
        let qi = C::q() as int;
        let av = a.val() as int;
        let bv = bb.val() as int;
        let x = av * av;
        let y = av * bv;
        let z = bv * bv;
        vstd::arithmetic::div_mod::lemma_small_mod(1, C::q());
        vstd::arithmetic::div_mod::lemma_small_mod(3, C::q());
        assert(two_ab.val() == (2 * y) % qi) by {
            vstd::arithmetic::div_mod::lemma_add_mod_noop(y, y, qi);
        }
        assert(aa3.val() == (3 * x) % qi) by {
            vstd::arithmetic::div_mod::lemma_add_mod_noop(x, x, qi);
            vstd::arithmetic::div_mod::lemma_add_mod_noop(2 * x, x, qi);
            vstd::arithmetic::div_mod::lemma_mod_twice(2 * x, qi);
        }
        assert(b23.val() == (3 * z) % qi) by {
            vstd::arithmetic::div_mod::lemma_add_mod_noop(z, z, qi);
            vstd::arithmetic::div_mod::lemma_add_mod_noop(2 * z, z, qi);
            vstd::arithmetic::div_mod::lemma_mod_twice(2 * z, qi);
        }
        // n0 = sb * (aa - 2ab + 2a + b2 + 2b - 3)
        assert(u1.val() == (x - 2 * y) % qi) by {
            vstd::arithmetic::div_mod::lemma_sub_mod_noop(x, 2 * y, qi);
            vstd::arithmetic::div_mod::lemma_mod_twice(x, qi);
        }
        assert(u2.val() == (x - 2 * y + 2 * av) % qi) by {
            vstd::arithmetic::div_mod::lemma_add_mod_noop(x - 2 * y, 2 * av, qi);
            vstd::arithmetic::div_mod::lemma_mod_twice(2 * av, qi);
        }
        assert(u3.val() == (x - 2 * y + 2 * av + z) % qi) by {
            vstd::arithmetic::div_mod::lemma_add_mod_noop(x - 2 * y + 2 * av, z, qi);
            vstd::arithmetic::div_mod::lemma_mod_twice(z, qi);
        }
        assert(u4.val() == (x - 2 * y + 2 * av + z + 2 * bv) % qi) by {
            vstd::arithmetic::div_mod::lemma_add_mod_noop(x - 2 * y + 2 * av + z, 2 * bv, qi);
            vstd::arithmetic::div_mod::lemma_mod_twice(2 * bv, qi);
        }
        assert(u5.val() == (x - 2 * y + 2 * av + z + 2 * bv - 3) % qi) by {
            vstd::arithmetic::div_mod::lemma_sub_mod_noop(x - 2 * y + 2 * av + z + 2 * bv, 3, qi);
        }
        assert(n0.val() == (C::sb_v() * (x - 2 * y + 2 * av + z + 2 * bv - 3)) % qi) by {
            vstd::arithmetic::div_mod::lemma_mul_mod_noop_general(
                C::sb_v() as int,
                x - 2 * y + 2 * av + z + 2 * bv - 3,
                qi,
            );
            vstd::arithmetic::div_mod::lemma_small_mod(C::sb_v(), C::q());
        }
        // n1 = sb * (2ab - 3aa + 2a + b2 - 2b + 1)
        assert(v1.val() == (2 * y - 3 * x) % qi) by {
            vstd::arithmetic::div_mod::lemma_sub_mod_noop(2 * y, 3 * x, qi);
        }
        assert(v2.val() == (2 * y - 3 * x + 2 * av) % qi) by {
            vstd::arithmetic::div_mod::lemma_add_mod_noop(2 * y - 3 * x, 2 * av, qi);
            vstd::arithmetic::div_mod::lemma_mod_twice(2 * av, qi);
        }
        assert(v3.val() == (2 * y - 3 * x + 2 * av + z) % qi) by {
            vstd::arithmetic::div_mod::lemma_add_mod_noop(2 * y - 3 * x + 2 * av, z, qi);
            vstd::arithmetic::div_mod::lemma_mod_twice(z, qi);
        }
        assert(v4.val() == (2 * y - 3 * x + 2 * av + z - 2 * bv) % qi) by {
            vstd::arithmetic::div_mod::lemma_sub_mod_noop(2 * y - 3 * x + 2 * av + z, 2 * bv, qi);
            vstd::arithmetic::div_mod::lemma_mod_twice(2 * bv, qi);
        }
        assert(v5.val() == (2 * y - 3 * x + 2 * av + z - 2 * bv + 1) % qi) by {
            vstd::arithmetic::div_mod::lemma_add_mod_noop(
                2 * y - 3 * x + 2 * av + z - 2 * bv,
                1,
                qi,
            );
        }
        assert(n1.val() == (C::sb_v() * (-3 * x + 2 * y + 2 * av + z - 2 * bv + 1)) % qi) by {
            vstd::arithmetic::div_mod::lemma_mul_mod_noop_general(
                C::sb_v() as int,
                2 * y - 3 * x + 2 * av + z - 2 * bv + 1,
                qi,
            );
            vstd::arithmetic::div_mod::lemma_small_mod(C::sb_v(), C::q());
        }
        // n2 = sb * (aa + 2ab - 2a - 3b2 + 2b + 1)
        assert(w1.val() == (x + 2 * y) % qi) by {
            vstd::arithmetic::div_mod::lemma_add_mod_noop(x, 2 * y, qi);
            vstd::arithmetic::div_mod::lemma_mod_twice(x, qi);
        }
        assert(w2.val() == (x + 2 * y - 2 * av) % qi) by {
            vstd::arithmetic::div_mod::lemma_sub_mod_noop(x + 2 * y, 2 * av, qi);
            vstd::arithmetic::div_mod::lemma_mod_twice(2 * av, qi);
        }
        assert(w3.val() == (x + 2 * y - 2 * av - 3 * z) % qi) by {
            vstd::arithmetic::div_mod::lemma_sub_mod_noop(x + 2 * y - 2 * av, 3 * z, qi);
        }
        assert(w4.val() == (x + 2 * y - 2 * av - 3 * z + 2 * bv) % qi) by {
            vstd::arithmetic::div_mod::lemma_add_mod_noop(x + 2 * y - 2 * av - 3 * z, 2 * bv, qi);
            vstd::arithmetic::div_mod::lemma_mod_twice(2 * bv, qi);
        }
        assert(w5.val() == (x + 2 * y - 2 * av - 3 * z + 2 * bv + 1) % qi) by {
            vstd::arithmetic::div_mod::lemma_add_mod_noop(
                x + 2 * y - 2 * av - 3 * z + 2 * bv,
                1,
                qi,
            );
        }
        assert(n2.val() == (C::sb_v() * (x + 2 * y - 2 * av - 3 * z + 2 * bv + 1)) % qi) by {
            vstd::arithmetic::div_mod::lemma_mul_mod_noop_general(
                C::sb_v() as int,
                x + 2 * y - 2 * av - 3 * z + 2 * bv + 1,
                qi,
            );
            vstd::arithmetic::div_mod::lemma_small_mod(C::sb_v(), C::q());
        }
        // d = aa - 2ab - 2a + b2 - 2b + 1
        assert(x2.val() == (x - 2 * y - 2 * av) % qi) by {
            vstd::arithmetic::div_mod::lemma_sub_mod_noop(x - 2 * y, 2 * av, qi);
            vstd::arithmetic::div_mod::lemma_mod_twice(2 * av, qi);
        }
        assert(x3.val() == (x - 2 * y - 2 * av + z) % qi) by {
            vstd::arithmetic::div_mod::lemma_add_mod_noop(x - 2 * y - 2 * av, z, qi);
            vstd::arithmetic::div_mod::lemma_mod_twice(z, qi);
        }
        assert(x4.val() == (x - 2 * y - 2 * av + z - 2 * bv) % qi) by {
            vstd::arithmetic::div_mod::lemma_sub_mod_noop(x - 2 * y - 2 * av + z, 2 * bv, qi);
            vstd::arithmetic::div_mod::lemma_mod_twice(2 * bv, qi);
        }
        assert(d.val() == (x - 2 * y - 2 * av + z - 2 * bv + 1) % qi) by {
            vstd::arithmetic::div_mod::lemma_add_mod_noop(x - 2 * y - 2 * av + z - 2 * bv, 1, qi);
        }
        // the cube links for s1 and s2
        assert(s1.val() == (((t1.val() * t1.val()) * t1.val()) as int) % qi) by {
            vstd::arithmetic::div_mod::lemma_mul_mod_noop_general(
                (t1.val() * t1.val()) as int,
                t1.val() as int,
                qi,
            );
        }
        assert(s2.val() == (((t2.val() * t2.val()) * t2.val()) as int) % qi) by {
            vstd::arithmetic::div_mod::lemma_mul_mod_noop_general(
                (t2.val() * t2.val()) as int,
                t2.val() as int,
                qi,
            );
        }
    }
    (n0, n1, n2, d, s1s2)
}

/// The map from a field pair to the curve, with the degenerate cases
/// handled first: the zero set of `phi` gives the identity, its pole
/// locus the fixed generator, everything else goes through `h'`.
pub fn map_to_curve<C: IndifferentiableHash>(t1: &Fp, t2: &Fp) -> (p: CurvePoint)
    requires
        t1.wf(C::q()),
        t2.wf(C::q()),
    ensures
        p.wf(C::q()),
        p.v() == map_to_curve_s::<C>(t1.val(), t2.val()),
        match p.v() {
            PointVal::Affine(x, y) => on_curve_s::<C>(x, y),
            PointVal::Infinity => true,
        },
{
    proof {
        C::lemma_params();
        lemma_phi_threefold::<C>(t1.val(), t2.val());
    }
    let (n0, n1, n2, d, s1s2) = phi::<C>(t1, t2);
    if fp_is_zero(&s1s2) {
        CurvePoint::Infinity
    } else if fp_is_zero(&d) {
        CurvePoint::Affine { x: C::gen_x_fp(), y: C::gen_y_fp() }
    } else {
        match C::h_prime(&n0, &n1, &n2, &d, t1, t2) {
            Option::Some((x, y)) => CurvePoint::Affine { x, y },
            Option::None => CurvePoint::Infinity,
        }
    }
}

/// The map from a field pair to the curve without the degenerate-case
/// checks: straight through `h'`.
pub fn map_to_curve_unchecked<C: IndifferentiableHash>(t1: &Fp, t2: &Fp) -> (p: CurvePoint)
    requires
        t1.wf(C::q()),
        t2.wf(C::q()),
    ensures
        p.wf(C::q()),
        p.v() == map_to_curve_unchecked_s::<C>(t1.val(), t2.val()),
        match p.v() {
            PointVal::Affine(x, y) => on_curve_s::<C>(x, y),
            PointVal::Infinity => true,
        },
{
    proof {
        C::lemma_params();
        lemma_phi_threefold::<C>(t1.val(), t2.val());
    }
    let (n0, n1, n2, d, _s1s2) = phi::<C>(t1, t2);
    match C::h_prime(&n0, &n1, &n2, &d, t1, t2) {
        Option::Some((x, y)) => CurvePoint::Affine { x, y },
        Option::None => CurvePoint::Infinity,
    }
}

/// Hash a byte string to a point of the curve. Total: degenerate inputs
/// go to the identity or to the fixed generator.
pub fn hash_to_curve<C: IndifferentiableHash>(input: &Vec<u8>) -> (p: CurvePoint)
    ensures
        p.wf(C::q()),
        p.v() == hash_to_curve_s::<C>(input@),
        match p.v() {
            PointVal::Affine(x, y) => on_curve_s::<C>(x, y),
            PointVal::Infinity => true,
        },
{
    let (t1, t2) = eta::<C>(input);
    map_to_curve::<C>(&t1, &t2)
}

/// Hash a byte string to a point of the curve, without the
/// degenerate-case checks.
pub fn hash_to_curve_unchecked<C: IndifferentiableHash>(input: &Vec<u8>) -> (p: CurvePoint)
    ensures
        p.wf(C::q()),
        p.v() == hash_to_curve_unchecked_s::<C>(input@),
        match p.v() {
            PointVal::Affine(x, y) => on_curve_s::<C>(x, y),
            PointVal::Infinity => true,
        },
{
    let (t1, t2) = eta::<C>(input);
    map_to_curve_unchecked::<C>(&t1, &t2)
}

/// Whether `(x, y)` satisfies the curve equation `y^2 = x^3 + b`.
pub fn is_on_curve<C: IndifferentiableHash>(x: &Fp, y: &Fp) -> (r: bool)
    requires
        x.wf(C::q()),
        y.wf(C::q()),
    ensures
        r == on_curve_s::<C>(x.val(), y.val()),
{
    proof {
        C::lemma_params();
    }
    let y2 = C::fq_mul(y, y);
    let x2 = C::fq_mul(x, x);
    let x3 = C::fq_mul(&x2, x);
    let b = C::b_fp();
    let rhs = C::fq_add(&x3, &b);
    let r = crate::field::fp_eq(&y2, &rhs);
    proof {
        let qi = C::q() as int;
        let xv = x.val() as int;
        vstd::arithmetic::div_mod::lemma_mul_mod_noop_general(xv * xv, xv, qi);
        vstd::arithmetic::div_mod::lemma_add_mod_noop((xv * xv) * xv, C::b_v() as int, qi);
        vstd::arithmetic::div_mod::lemma_small_mod(C::b_v(), C::q());
        vstd::arithmetic::div_mod::lemma_mod_twice((y.val() * y.val()) as int, qi);
    }
    r
}


/// Degenerate-case law, zero set: a field pair with `t1 = 0` or `t2 = 0`
/// lies in the zero set of `phi` (`s1*s2 = 0`) and maps to the identity.
pub proof fn lemma_degenerate_zero_set<C: IndifferentiableHash>(t1: nat, t2: nat)
    requires
        t1 < C::q(),
        t2 < C::q(),
        t1 == 0 || t2 == 0,
    ensures
        map_to_curve_s::<C>(t1, t2) == PointVal::Infinity,
{
    C::lemma_params();
    let qi = C::q() as int;
    let s1 = ((((t1 * t1) * t1) as int) % qi) as nat;
    let s2 = ((((t2 * t2) * t2) as int) % qi) as nat;
    vstd::arithmetic::div_mod::lemma_small_mod(0, C::q());
    if t1 == 0 {
        assert(s1 == 0);
        assert(s1 * s2 == 0) by (nonlinear_arith)
            requires
                s1 == 0,
        ;
        assert((s1 * s2) % C::q() == 0);
    } else {
        assert(s2 == 0);
        assert(s1 * s2 == 0) by (nonlinear_arith)
            requires
                s2 == 0,
        ;
        assert((s1 * s2) % C::q() == 0);
    }
}

/// Degenerate-case law, pole locus: a field pair on which `phi`'s
/// denominator vanishes, outside the zero set, maps to the fixed
/// generator of the prime-order subgroup.
pub proof fn lemma_degenerate_pole<C: IndifferentiableHash>(t1: nat, t2: nat)
    requires
        phi_s::<C>(t1, t2).3 == 0,
        phi_s::<C>(t1, t2).4 != 0,
    ensures
        map_to_curve_s::<C>(t1, t2) == PointVal::Affine(C::gen_x(), C::gen_y()),
{
}

/// Degenerate-case law at the hash level: an input whose field hash has a
/// zero coordinate maps to the identity.
pub proof fn lemma_degenerate_zero_hash<C: IndifferentiableHash>(input: Seq<u8>)
    requires
        eta_s::<C>(input).0 == 0 || eta_s::<C>(input).1 == 0,
    ensures
        hash_to_curve_s::<C>(input) == PointVal::Infinity,
{
    C::lemma_params();
    let (t1, t2) = eta_s::<C>(input);
    vstd::arithmetic::div_mod::lemma_mod_bound(
        be_val(sha512_of(input.push(0x30))) as int,
        C::q() as int,
    );
    vstd::arithmetic::div_mod::lemma_mod_bound(
        be_val(sha512_of(input.push(0x31))) as int,
        C::q() as int,
    );
    lemma_degenerate_zero_set::<C>(t1, t2);
}


/// The threefold identities of `phi`: over the twists' parameters
/// `a = xi*s1` and `b = xi^2*s2`, the numerators satisfy
/// `n1^2 = a*u + b_coeff*v` and `n2^2 = b*u + b_coeff*v`, where
/// `v = d^2` and `u = n0^2 - b_coeff*v`. These are the relations that
/// place `phi`'s image on the threefold, and they carry the on-curve
/// property of `h'`.
pub proof fn lemma_phi_threefold<C: IndifferentiableHash>(t1: nat, t2: nat)
    ensures
        ({
            let (n0, n1, n2, d, s1s2) = phi_s::<C>(t1, t2);
            threefold_ok::<C>(n0, n1, n2, d, t1, t2)
        }),
{
    C::lemma_params();
    assert(phi_outputs_reduced::<C>(t1, t2)) by {
        lemma_phi_outputs_reduced::<C>(t1, t2);
    }
    let q = C::q();
    let qi = q as int;
    let (n0, n1, n2, d, s1s2) = phi_s::<C>(t1, t2);
    let s1 = (((t1 * t1) * t1) as int) % qi;
    let s2 = (((t2 * t2) * t2) as int) % qi;
    let a = ((C::xi_v() as int) * s1) % qi;
    let b = ((((C::xi_v() * C::xi_v()) % q) as int) * s2) % qi;
    let sb = C::sb_v() as int;
    let bc = C::b_v() as int;
    let f0 = a * a - 2 * (a * b) + 2 * a + b * b + 2 * b - 3;
    let f1 = -3 * (a * a) + 2 * (a * b) + 2 * a + b * b - 2 * b + 1;
    let f2 = a * a + 2 * (a * b) - 2 * a - 3 * (b * b) + 2 * b + 1;
    let g = a * a - 2 * (a * b) - 2 * a + b * b - 2 * b + 1;
    // the integer identities: f1^2 - g^2 = a*(f0^2 - g^2) and
    // f2^2 - g^2 = b*(f0^2 - g^2), by factoring both sides
    assert(f1 - g == 4 * (a * (b + 1 - a))) by (nonlinear_arith)
        requires
            f1 == -3 * (a * a) + 2 * (a * b) + 2 * a + b * b - 2 * b + 1,
            g == a * a - 2 * (a * b) - 2 * a + b * b - 2 * b + 1,
    ;
    assert(f1 + g == 2 * (((b - 1) * (b - 1)) - a * a)) by (nonlinear_arith)
        requires
            f1 == -3 * (a * a) + 2 * (a * b) + 2 * a + b * b - 2 * b + 1,
            g == a * a - 2 * (a * b) - 2 * a + b * b - 2 * b + 1,
    ;
    assert(f0 - g == 4 * (a + b - 1)) by (nonlinear_arith)
        requires
            f0 == a * a - 2 * (a * b) + 2 * a + b * b + 2 * b - 3,
            g == a * a - 2 * (a * b) - 2 * a + b * b - 2 * b + 1,
    ;
    assert(f0 + g == 2 * (((a - b) * (a - b)) - 1)) by (nonlinear_arith)
        requires
            f0 == a * a - 2 * (a * b) + 2 * a + b * b + 2 * b - 3,
            g == a * a - 2 * (a * b) - 2 * a + b * b - 2 * b + 1,
    ;
    assert(f2 - g == 4 * (b * (a - b + 1))) by (nonlinear_arith)
        requires
            f2 == a * a + 2 * (a * b) - 2 * a - 3 * (b * b) + 2 * b + 1,
            g == a * a - 2 * (a * b) - 2 * a + b * b - 2 * b + 1,
    ;
    assert(f2 + g == 2 * (((a - 1) * (a - 1)) - b * b)) by (nonlinear_arith)
        requires
            f2 == a * a + 2 * (a * b) - 2 * a - 3 * (b * b) + 2 * b + 1,
            g == a * a - 2 * (a * b) - 2 * a + b * b - 2 * b + 1,
    ;
    assert(f1 * f1 - g * g == (f1 - g) * (f1 + g)) by (nonlinear_arith);
    assert(f2 * f2 - g * g == (f2 - g) * (f2 + g)) by (nonlinear_arith);
    assert(f0 * f0 - g * g == (f0 - g) * (f0 + g)) by (nonlinear_arith);
    assert((4 * (a * (b + 1 - a))) * (2 * (((b - 1) * (b - 1)) - a * a)) == a * ((4 * (a + b
        - 1)) * (2 * (((a - b) * (a - b)) - 1)))) by (nonlinear_arith);
    assert((4 * (b * (a - b + 1))) * (2 * (((a - 1) * (a - 1)) - b * b)) == b * ((4 * (a + b
        - 1)) * (2 * (((a - b) * (a - b)) - 1)))) by (nonlinear_arith);
    assert(f1 * f1 - g * g == a * (f0 * f0 - g * g));
    assert(f2 * f2 - g * g == b * (f0 * f0 - g * g));
    // residues squared: n_i^2 = b_coeff * f_i^2 and d^2 = g^2 modulo q
    assert(n0 == ((sb * f0) % qi) as nat);
    assert(n1 == ((sb * f1) % qi) as nat);
    assert(n2 == ((sb * f2) % qi) as nat);
    assert(d == (g % qi) as nat);
    lemma_square_of_reduced_scaled::<C>(f0, n0);
    lemma_square_of_reduced_scaled::<C>(f1, n1);
    lemma_square_of_reduced_scaled::<C>(f2, n2);
    let v = (d * d) % q;
    assert((d * d) % q == (g * g) % qi) by {
        vstd::arithmetic::div_mod::lemma_mul_mod_noop(g, g, qi);
    }
    // u = n0^2 - b*v modulo q equals b*(f0^2 - g^2) modulo q
    let u = ((((n0 * n0) % q) as int - ((C::b_v() * v) % q) as int) % qi) as nat;
    assert((C::b_v() * v) % q == (bc * (g * g)) % qi) by {
        vstd::arithmetic::div_mod::lemma_mul_mod_noop_general(bc, (g * g) % qi, qi);
        vstd::arithmetic::div_mod::lemma_mul_mod_noop_general(bc, g * g, qi);
    }
    assert(u as int == (bc * (f0 * f0) - bc * (g * g)) % qi) by {
        vstd::arithmetic::div_mod::lemma_sub_mod_noop(bc * (f0 * f0), bc * (g * g), qi);
    }
    // a*u + b_coeff*v reduces to b_coeff*f1^2, which is n1^2
    assert((a * (u as int) + bc * (v as int)) % qi == (bc * (f1 * f1)) % qi) by {
        lemma_combine_threefold::<C>(a, bc, f0, f1, g, u as int, v as int);
    }
    assert((b * (u as int) + bc * (v as int)) % qi == (bc * (f2 * f2)) % qi) by {
        lemma_combine_threefold::<C>(b, bc, f0, f2, g, u as int, v as int);
    }
}

/// For a residue `n = (sb*f) % q` with `sb^2 = b` modulo `q`: the square
/// of `n` is `b*f^2` modulo `q`.
proof fn lemma_square_of_reduced_scaled<C: IndifferentiableHash>(f: int, n: nat)
    requires
        C::q() > 1,
        (C::sb_v() * C::sb_v()) % C::q() == C::b_v(),
        n as int == ((C::sb_v() as int) * f) % (C::q() as int),
    ensures
        (n * n) % C::q() == ((C::b_v() as int) * (f * f)) % (C::q() as int),
{
    let sb = C::sb_v() as int;
    let bc = C::b_v() as int;
    let qi = C::q() as int;
    vstd::arithmetic::div_mod::lemma_mul_mod_noop(sb * f, sb * f, qi);
    assert((sb * f) * (sb * f) == (sb * sb) * (f * f)) by (nonlinear_arith);
    vstd::arithmetic::div_mod::lemma_mul_mod_noop_general(sb * sb, f * f, qi);
    assert((sb * sb) % qi == bc);
    vstd::arithmetic::div_mod::lemma_mul_mod_noop_general(bc, f * f, qi);
    C::lemma_params();
    vstd::arithmetic::div_mod::lemma_small_mod(C::b_v(), C::q());
}

/// Combining step of the threefold identities: from the integer identity
/// `f^2 - g^2 = c*(f0^2 - g^2)` and the residues `u` of
/// `b*(f0^2 - g^2)` and `v` of `g^2`, conclude that `c*u + b*v` is the
/// residue of `b*f^2`.
proof fn lemma_combine_threefold<C: IndifferentiableHash>(
    c: int,
    bc: int,
    f0: int,
    f: int,
    g: int,
    u: int,
    v: int,
)
    requires
        C::q() > 1,
        bc == C::b_v() as int,
        u == (bc * (f0 * f0) - bc * (g * g)) % (C::q() as int),
        v == (g * g) % (C::q() as int),
        f * f - g * g == c * (f0 * f0 - g * g),
    ensures
        (c * u + bc * v) % (C::q() as int) == (bc * (f * f)) % (C::q() as int),
{
    let qi = C::q() as int;
    let p = bc * (f0 * f0) - bc * (g * g);
    assert(c * u % qi == (c * p) % qi) by {
        vstd::arithmetic::div_mod::lemma_mul_mod_noop_general(c, p, qi);
    }
    assert(bc * v % qi == (bc * (g * g)) % qi) by {
        vstd::arithmetic::div_mod::lemma_mul_mod_noop_general(bc, g * g, qi);
    }
    assert((c * u + bc * v) % qi == (c * p + bc * (g * g)) % qi) by {
        vstd::arithmetic::div_mod::lemma_add_mod_noop(c * p, bc * (g * g), qi);
        vstd::arithmetic::div_mod::lemma_add_mod_noop(c * u, bc * v, qi);
        vstd::arithmetic::div_mod::lemma_mod_twice(c * p, qi);
        vstd::arithmetic::div_mod::lemma_mod_twice(bc * (g * g), qi);
        vstd::arithmetic::div_mod::lemma_mod_twice(c * u, qi);
        vstd::arithmetic::div_mod::lemma_mod_twice(bc * v, qi);
    }
    assert(c * p + bc * (g * g) == bc * (f * f)) by (nonlinear_arith)
        requires
            p == bc * (f0 * f0) - bc * (g * g),
            f * f - g * g == c * (f0 * f0 - g * g),
    ;
}



/// The outputs of `phi_s` are canonical residues.
spec fn phi_outputs_reduced<C: IndifferentiableHash>(t1: nat, t2: nat) -> bool {
    let (n0, n1, n2, d, s1s2) = phi_s::<C>(t1, t2);
    n0 < C::q() && n1 < C::q() && n2 < C::q() && d < C::q()
}

/// Each output of `phi_s` is a Euclidean remainder by the modulus, hence
/// a canonical residue.
proof fn lemma_phi_outputs_reduced<C: IndifferentiableHash>(t1: nat, t2: nat)
    requires
        C::q() > 1,
    ensures
        phi_outputs_reduced::<C>(t1, t2),
{
    let q = C::q();
    let qi = q as int;
    let s1 = (((t1 * t1) * t1) as int) % qi;
    let s2 = (((t2 * t2) * t2) as int) % qi;
    let a = ((C::xi_v() as int) * s1) % qi;
    let b = ((((C::xi_v() * C::xi_v()) % q) as int) * s2) % qi;
    let sb = C::sb_v() as int;
    vstd::arithmetic::div_mod::lemma_mod_bound(
        sb * (a * a - 2 * (a * b) + 2 * a + b * b + 2 * b - 3),
        qi,
    );
    vstd::arithmetic::div_mod::lemma_mod_bound(
        sb * (-3 * (a * a) + 2 * (a * b) + 2 * a + b * b - 2 * b + 1),
        qi,
    );
    vstd::arithmetic::div_mod::lemma_mod_bound(
        sb * (a * a + 2 * (a * b) - 2 * a - 3 * (b * b) + 2 * b + 1),
        qi,
    );
    vstd::arithmetic::div_mod::lemma_mod_bound(a * a - 2 * (a * b) - 2 * a + b * b - 2 * b + 1, qi);
}

/// Undoing the subtraction that defines `u`: adding the subtrahend back
/// returns the reduced square.
pub proof fn lemma_u_restores_square(x2: nat, y: nat, u: nat, q: nat)
    requires
        q > 1,
        x2 < q,
        y < q,
        u == ((x2 - y) % (q as int)) as nat,
    ensures
        (u + y) % q == x2,
{
    let qi = q as int;
    vstd::arithmetic::div_mod::lemma_add_mod_noop((x2 - y) as int, y as int, qi);
    vstd::arithmetic::div_mod::lemma_small_mod(y, q);
    vstd::arithmetic::div_mod::lemma_small_mod(x2, q);
}

/// Multiplying by `d` and then by an inverse of `d` returns a residue
/// unchanged.
pub proof fn lemma_mul_div_cancel(x: nat, d: nat, di: nat, q: nat)
    requires
        q > 1,
        x < q,
        (d * di) % q == 1,
    ensures
        (((x * d) % q) * di) % q == x,
{
    let qi = q as int;
    vstd::arithmetic::div_mod::lemma_mul_mod_noop_general((x * d) as int, di as int, qi);
    assert((x * d) * di == x * (d * di)) by (nonlinear_arith);
    vstd::arithmetic::div_mod::lemma_mul_mod_noop_general(x as int, (d * di) as int, qi);
    vstd::arithmetic::div_mod::lemma_small_mod(x, q);
}

/// The y-side of one `h'` branch, multiplied through by the cube of the
/// divisor: the square of the finished y-coordinate times `zz^3` reduces
/// to `(bcoef*s*u + bc*v) * (mult*d)`.
#[verifier::rlimit(100)]
proof fn lemma_branch_lhs(
    q: nat,
    bc: nat,
    n: nat,
    d: nat,
    u: nat,
    v: nat,
    mult: nat,
    bcoef: nat,
    s: nat,
    cs: nat,
    zsel: nat,
    zz: nat,
    zi: nat,
)
    requires
        q > 1,
        zz == (zsel * d) % q,
        (zz * zi) % q == 1,
        cube_mod(zsel, q) == mult,
        cs == (bcoef * s) % q,
        (n * n) % q == (cs * u + bc * v) % q,
    ensures
        ({
            let yf = (((zsel * n) % q) * zi) % q;
            ((yf * yf) % q * cube_mod(zz, q)) % q == ((bcoef * (s * u) + bc * v) * (mult * d))
                % q
        }),
{
    let qi = q as int;
    let yf = (((zsel * n) % q) * zi) % q;
    let p = zsel * n * zi;
    assert(yf == p % q) by {
        vstd::arithmetic::div_mod::lemma_mul_mod_noop_general((zsel * n) as int, zi as int, qi);
        assert((zsel * n) * zi == zsel * n * zi) by (nonlinear_arith);
    }
    let c = cube_mod(zz, q);
    assert(((yf * yf) % q * c) % q == (p * p * (zz * (zz * zz))) % q) by {
        vstd::arithmetic::div_mod::lemma_mul_mod_noop(p as int, p as int, qi);
        lemma_cube_mod_unreduced(zz, q);
        vstd::arithmetic::div_mod::lemma_mul_mod_noop((p * p) as int, ((zz * zz) * zz) as int, qi);
        vstd::arithmetic::div_mod::lemma_mod_twice((p * p) as int, qi);
        vstd::arithmetic::div_mod::lemma_mod_twice(((zz * zz) * zz) as int, qi);
        assert((p * p) * ((zz * zz) * zz) == p * p * (zz * (zz * zz))) by (nonlinear_arith);
    }
    // the two inverse factors cancel against two of the zz factors
    let core = zsel * zsel * (n * n) * zz;
    assert((p * p * (zz * (zz * zz))) % q == (core * 1) % q) by {
        assert(p * p * (zz * (zz * zz)) == core * ((zi * zz) * (zi * zz))) by (nonlinear_arith)
            requires
                p == zsel * n * zi,
                core == zsel * zsel * (n * n) * zz,
        ;
        vstd::arithmetic::div_mod::lemma_mul_mod_noop_general(
            core as int,
            ((zi * zz) * (zi * zz)) as int,
            qi,
        );
        vstd::arithmetic::div_mod::lemma_mul_mod_noop((zi * zz) as int, (zi * zz) as int, qi);
        vstd::arithmetic::div_mod::lemma_small_mod(1, q);
        assert(zi * zz == zz * zi) by (nonlinear_arith);
    }
    // fold zz back to zsel*d, collect the cube of the selected root
    assert(core % q == ((zsel * (zsel * zsel)) * ((n * n) * d)) % q) by {
        vstd::arithmetic::div_mod::lemma_mul_mod_noop_general(
            (zsel * zsel * (n * n)) as int,
            zz as int,
            qi,
        );
        assert(core == zsel * zsel * (n * n) * zz) by (nonlinear_arith)
            requires
                core == zsel * zsel * (n * n) * zz,
        ;
        assert(zsel * zsel * (n * n) * (zsel * d) == (zsel * (zsel * zsel)) * ((n * n) * d))
            by (nonlinear_arith);
        vstd::arithmetic::div_mod::lemma_mul_mod_noop_general(
            (zsel * zsel * (n * n)) as int,
            (zsel * d) as int,
            qi,
        );
    }
    // the cube of the root is `mult`, the square of `n` is the threefold sum
    assert(((zsel * (zsel * zsel)) * ((n * n) * d)) % q == ((cs * u + bc * v) * (mult * d))
        % q) by {
        lemma_cube_mod_unreduced(zsel, q);
        assert(zsel * (zsel * zsel) == (zsel * zsel) * zsel) by (nonlinear_arith);
        vstd::arithmetic::div_mod::lemma_mul_mod_noop_general(
            (zsel * (zsel * zsel)) as int,
            ((n * n) * d) as int,
            qi,
        );
        vstd::arithmetic::div_mod::lemma_mul_mod_noop_general(
            ((n * n)) as int,
            (mult * d) as int,
            qi,
        );
        assert((mult as int) * (((n * n) * d) as int) == ((n * n) as int) * ((mult * d) as int))
            by (nonlinear_arith);
        vstd::arithmetic::div_mod::lemma_mul_mod_noop_general(mult as int, ((n * n) * d) as int, qi);
        vstd::arithmetic::div_mod::lemma_mul_mod_noop_general(
            ((cs * u + bc * v)) as int,
            (mult * d) as int,
            qi,
        );
    }
    // open the coefficient `cs` inside the sum
    assert(((cs * u + bc * v) * (mult * d)) % q == ((bcoef * (s * u) + bc * v) * (mult * d))
        % q) by {
        assert((cs * u) % q == (bcoef * (s * u)) % q) by {
            vstd::arithmetic::div_mod::lemma_mul_mod_noop_general(
                (bcoef * s) as int,
                u as int,
                qi,
            );
            assert((bcoef * s) * u == bcoef * (s * u)) by (nonlinear_arith);
        }
        assert((cs * u + bc * v) % q == (bcoef * (s * u) + bc * v) % q) by {
            vstd::arithmetic::div_mod::lemma_add_mod_noop((cs * u) as int, (bc * v) as int, qi);
            vstd::arithmetic::div_mod::lemma_add_mod_noop(
                (bcoef * (s * u)) as int,
                (bc * v) as int,
                qi,
            );
        }
        vstd::arithmetic::div_mod::lemma_mul_mod_noop_general(
            (cs * u + bc * v) as int,
            (mult * d) as int,
            qi,
        );
        vstd::arithmetic::div_mod::lemma_mul_mod_noop_general(
            (bcoef * (s * u) + bc * v) as int,
            (mult * d) as int,
            qi,
        );
    }
}


/// The x-side of one `h'` branch, multiplied through by the cube of the
/// divisor: the curve polynomial of the finished x-coordinate times
/// `zz^3` reduces to the same `(bcoef*s*u + bc*v) * (mult*d)`.
#[verifier::rlimit(100)]
proof fn lemma_branch_rhs(
    q: nat,
    bc: nat,
    d: nat,
    u: nat,
    v: nat,
    th: nat,
    big: nat,
    mult: nat,
    bcoef: nat,
    s: nat,
    zsel: nat,
    zz: nat,
    zi: nat,
    x_in: nat,
)
    requires
        q > 1,
        v == (d * d) % q,
        big == (cube_mod(th, q) * v) % q,
        big == (mult * ((bcoef * u) % q)) % q,
        zz == (zsel * d) % q,
        (zz * zi) % q == 1,
        cube_mod(zsel, q) == mult,
        cube_mod(x_in, q) == (cube_mod(th, q) * s) % q,
    ensures
        ({
            let xf = (((x_in * d) % q) * zi) % q;
            ((((xf * xf) * xf) + bc) % q * cube_mod(zz, q)) % q == ((bcoef * (s * u) + bc * v)
                * (mult * d)) % q
        }),
{
    let xf = (((x_in * d) % q) * zi) % q;
    let qi = q as int;
    let pz = x_in * d * zi;
    assert(xf == pz % q) by {
        vstd::arithmetic::div_mod::lemma_mul_mod_noop_general((x_in * d) as int, zi as int, qi);
        assert((x_in * d) * zi == x_in * d * zi) by (nonlinear_arith);
    }
    let c = cube_mod(zz, q);
    let zc = (zz * zz) * zz;
    let x3 = (xf * xf) * xf;
    // distribute the divisor cube over the curve polynomial
    assert(((x3 + bc) % q * c) % q == (x3 % q * c + (bc * zc) % q) % q) by {
        lemma_cube_mod_unreduced(zz, q);
        vstd::arithmetic::div_mod::lemma_mul_mod_noop(x3 as int, zc as int, qi);
        vstd::arithmetic::div_mod::lemma_mul_mod_noop((x3 + bc) as int, zc as int, qi);
        assert((x3 + bc) * zc == x3 * zc + bc * zc) by (nonlinear_arith);
        vstd::arithmetic::div_mod::lemma_add_mod_noop((x3 * zc) as int, (bc * zc) as int, qi);
        vstd::arithmetic::div_mod::lemma_mul_mod_noop((x3 % q) as int, c as int, qi);
        vstd::arithmetic::div_mod::lemma_mod_twice((x3 % q * c) as int, qi);
        vstd::arithmetic::div_mod::lemma_add_mod_noop((x3 % q * c) as int, ((bc * zc) % q) as int, qi);
        vstd::arithmetic::div_mod::lemma_mod_twice((x3 * zc) as int, qi);
        vstd::arithmetic::div_mod::lemma_mod_twice((bc * zc) as int, qi);
    }
    // the x-term: strip the inverses, fold to big * s * d
    assert((x3 % q * c) % q == (bcoef * (s * u) * (mult * d)) % q) by {
        assert(x3 % q == (pz * (pz * pz)) % q) by {
            vstd::arithmetic::div_mod::lemma_mul_mod_noop_general((xf * xf) as int, xf as int, qi);
            vstd::arithmetic::div_mod::lemma_mul_mod_noop(pz as int, pz as int, qi);
            vstd::arithmetic::div_mod::lemma_mul_mod_noop_general((pz * pz) as int, xf as int, qi);
            vstd::arithmetic::div_mod::lemma_mul_mod_noop_general(pz as int, (pz * pz) as int, qi);
            assert((pz * pz) * pz == pz * (pz * pz)) by (nonlinear_arith);
            vstd::arithmetic::div_mod::lemma_mul_mod_noop((pz * pz) as int, pz as int, qi);
        }
        lemma_cube_mod_unreduced(zz, q);
        vstd::arithmetic::div_mod::lemma_mul_mod_noop((pz * (pz * pz)) as int, ((zz * zz) * zz) as int, qi);
        let core = ((x_in * x_in) * x_in) * ((d * d) * d);
        let pc = pz * (pz * pz);
        let ic = (zi * zz) * ((zi * zz) * (zi * zz));
        assert(pc == core * (zi * (zi * zi))) by (nonlinear_arith)
            requires
                pz == x_in * d * zi,
                pc == pz * (pz * pz),
                core == ((x_in * x_in) * x_in) * ((d * d) * d),
        ;
        assert(ic == (zi * (zi * zi)) * ((zz * zz) * zz)) by (nonlinear_arith)
            requires
                ic == (zi * zz) * ((zi * zz) * (zi * zz)),
        ;
        assert(pz * (pz * pz) * ((zz * zz) * zz) == core * ic) by (nonlinear_arith)
            requires
                pc == pz * (pz * pz),
                pc == core * (zi * (zi * zi)),
                ic == (zi * (zi * zi)) * ((zz * zz) * zz),
        ;
        assert((core * ic) % q == core % q) by {
            assert((zi * zz) % q == 1) by {
                assert(zi * zz == zz * zi) by (nonlinear_arith);
            }
            assert(((zi * zz) * (zi * zz)) % q == 1) by {
                vstd::arithmetic::div_mod::lemma_mul_mod_noop((zi * zz) as int, (zi * zz) as int, qi);
                vstd::arithmetic::div_mod::lemma_small_mod(1, q);
            }
            assert(ic % q == 1) by {
                vstd::arithmetic::div_mod::lemma_mul_mod_noop(
                    (zi * zz) as int,
                    ((zi * zz) * (zi * zz)) as int,
                    qi,
                );
                vstd::arithmetic::div_mod::lemma_small_mod(1, q);
            }
            vstd::arithmetic::div_mod::lemma_mul_mod_noop_general(core as int, ic as int, qi);
            assert((core * 1) % q == (core * ic) % q);
            assert(core * 1 == core) by (nonlinear_arith);
        }
        // x_in^3 is th^3 * s, and d^3 is v * d
        assert(core % q == ((cube_mod(th, q) * s) * (v * d)) % q) by {
            lemma_cube_mod_unreduced(x_in, q);
            vstd::arithmetic::div_mod::lemma_mul_mod_noop_general(
                ((x_in * x_in) * x_in) as int,
                ((d * d) * d) as int,
                qi,
            );
            vstd::arithmetic::div_mod::lemma_mul_mod_noop_general(
                (cube_mod(th, q) * s) as int,
                ((d * d) * d) as int,
                qi,
            );
            assert((cube_mod(th, q) * s) * ((d * d) * d) == ((cube_mod(th, q) * s) * d) * (d * d))
                by (nonlinear_arith);
            vstd::arithmetic::div_mod::lemma_mul_mod_noop_general(
                ((cube_mod(th, q) * s) * d) as int,
                (d * d) as int,
                qi,
            );
            assert(((cube_mod(th, q) * s) * d) * v == (cube_mod(th, q) * s) * (v * d))
                by (nonlinear_arith);
            vstd::arithmetic::div_mod::lemma_mul_mod_noop_general(
                ((cube_mod(th, q) * s) * d) as int,
                v as int,
                qi,
            );
        }
        // fold th^3 * v into big, then open the branch condition
        assert(((cube_mod(th, q) * s) * (v * d)) % q == (big * (s * d)) % q) by {
            assert((cube_mod(th, q) * s) * (v * d) == (cube_mod(th, q) * v) * (s * d))
                by (nonlinear_arith);
            vstd::arithmetic::div_mod::lemma_mul_mod_noop_general(
                (cube_mod(th, q) * v) as int,
                (s * d) as int,
                qi,
            );
            vstd::arithmetic::div_mod::lemma_mul_mod_noop_general(big as int, (s * d) as int, qi);
            vstd::arithmetic::div_mod::lemma_mod_twice(big as int, qi);
        }
        assert((big * (s * d)) % q == (bcoef * (s * u) * (mult * d)) % q) by {
            vstd::arithmetic::div_mod::lemma_mul_mod_noop_general(
                (mult * ((bcoef * u) % q)) as int,
                (s * d) as int,
                qi,
            );
            vstd::arithmetic::div_mod::lemma_mod_twice((mult * ((bcoef * u) % q)) as int, qi);
            let bu = (bcoef * u) % q;
            assert(mult * bu * (s * d) == bu * (mult * (s * d))) by (nonlinear_arith);
            vstd::arithmetic::div_mod::lemma_mul_mod_noop_general(
                ((bcoef * u) % q) as int,
                (mult * (s * d)) as int,
                qi,
            );
            vstd::arithmetic::div_mod::lemma_mul_mod_noop_general(
                (bcoef * u) as int,
                (mult * (s * d)) as int,
                qi,
            );
            assert((bcoef * u) * (mult * (s * d)) == bcoef * (s * u) * (mult * d))
                by (nonlinear_arith);
        }
    }
    // the constant term: the root cube is mult, the divisor square is v
    assert(((bc * zc) % q) % q == ((bc * v) * (mult * d)) % q) by {
        vstd::arithmetic::div_mod::lemma_mod_twice((bc * zc) as int, qi);
        assert(zc == zz * (zz * zz)) by (nonlinear_arith)
            requires
                zc == (zz * zz) * zz,
        ;
        let p = zsel * d;
        assert((bc * zc) % q == (bc * (p * (p * p))) % q) by {
            vstd::arithmetic::div_mod::lemma_mod_twice(p as int, qi);
            vstd::arithmetic::div_mod::lemma_mul_mod_noop(zz as int, (zz * zz) as int, qi);
            vstd::arithmetic::div_mod::lemma_mul_mod_noop(p as int, p as int, qi);
            vstd::arithmetic::div_mod::lemma_mul_mod_noop(p as int, (p * p) as int, qi);
            assert((zz * (zz * zz)) % q == (p * (p * p)) % q);
            vstd::arithmetic::div_mod::lemma_mul_mod_noop_general(
                bc as int,
                (zz * (zz * zz)) as int,
                qi,
            );
            vstd::arithmetic::div_mod::lemma_mul_mod_noop_general(
                bc as int,
                (p * (p * p)) as int,
                qi,
            );
            assert(bc * zc == bc * (zz * (zz * zz))) by (nonlinear_arith)
                requires
                    zc == (zz * zz) * zz,
            ;
        }
        assert(bc * (p * (p * p)) == (bc * ((zsel * zsel) * zsel)) * ((d * d) * d))
            by (nonlinear_arith)
            requires
                p == zsel * d,
        ;
        assert(((bc * ((zsel * zsel) * zsel)) * ((d * d) * d)) % q == ((bc * mult) * (v * d)) % q)
            by {
            lemma_cube_mod_unreduced(zsel, q);
            assert(bc * ((zsel * zsel) * zsel) == bc * (((zsel * zsel) * zsel) * 1))
                by (nonlinear_arith);
            vstd::arithmetic::div_mod::lemma_mul_mod_noop_general(
                ((zsel * zsel) * zsel) as int,
                (bc * ((d * d) * d)) as int,
                qi,
            );
            assert((bc * ((zsel * zsel) * zsel)) * ((d * d) * d) == ((zsel * zsel) * zsel) * (bc
                * ((d * d) * d))) by (nonlinear_arith);
            vstd::arithmetic::div_mod::lemma_mul_mod_noop_general(
                mult as int,
                (bc * ((d * d) * d)) as int,
                qi,
            );
            assert(mult * (bc * ((d * d) * d)) == (bc * mult * d) * ((d * d) * 1))
                by (nonlinear_arith);
            vstd::arithmetic::div_mod::lemma_mul_mod_noop_general(
                (bc * mult * d) as int,
                (d * d) as int,
                qi,
            );
            assert((bc * mult * d) * v == (bc * mult) * (v * d)) by (nonlinear_arith);
            vstd::arithmetic::div_mod::lemma_mul_mod_noop_general(
                (bc * mult * d) as int,
                v as int,
                qi,
            );
        }
        assert((bc * mult) * (v * d) == (bc * v) * (mult * d)) by (nonlinear_arith);
    }
    // assemble the sum
    assert((x3 % q * c + (bc * zc) % q) % q == ((bcoef * (s * u) + bc * v) * (mult * d)) % q) by {
        vstd::arithmetic::div_mod::lemma_add_mod_noop(
            (x3 % q * c) as int,
            ((bc * zc) % q) as int,
            qi,
        );
        vstd::arithmetic::div_mod::lemma_mod_twice((x3 % q * c) as int, qi);
        vstd::arithmetic::div_mod::lemma_mod_twice(((bc * zc) % q) as int, qi);
        vstd::arithmetic::div_mod::lemma_add_mod_noop(
            (bcoef * (s * u) * (mult * d)) as int,
            ((bc * v) * (mult * d)) as int,
            qi,
        );
        assert(bcoef * (s * u) * (mult * d) + (bc * v) * (mult * d) == (bcoef * (s * u) + bc * v)
            * (mult * d)) by (nonlinear_arith);
        vstd::arithmetic::div_mod::lemma_mod_twice((bcoef * (s * u) * (mult * d)) as int, qi);
        vstd::arithmetic::div_mod::lemma_mod_twice(((bc * v) * (mult * d)) as int, qi);
    }
}

/// On-curve law for the branches of `h'`: wherever a numerator `n`
/// satisfies its threefold relation `n^2 = bcoef*s*u + bc*v`, the oracle
/// value `big = th^3 * v` matches `mult * bcoef * u` with the selected
/// root `zsel` a cube root of `mult`, and the divisor `zsel * d` has an
/// inverse, the finished point `(x_in*d / (zsel*d), zsel*n / (zsel*d))`
/// satisfies the curve equation `y^2 = x^3 + bc`. Each arm of `h'`
/// provides exactly these facts, so its affine outputs lie on the curve.
pub proof fn lemma_branch_on_curve(
    q: nat,
    bc: nat,
    n: nat,
    d: nat,
    u: nat,
    v: nat,
    th: nat,
    big: nat,
    mult: nat,
    bcoef: nat,
    s: nat,
    cs: nat,
    zsel: nat,
    zz: nat,
    zi: nat,
    x_in: nat,
)
    requires
        q > 1,
        v == (d * d) % q,
        big == (cube_mod(th, q) * v) % q,
        big == (mult * ((bcoef * u) % q)) % q,
        zz == (zsel * d) % q,
        (zz * zi) % q == 1,
        cube_mod(zsel, q) == mult,
        cs == (bcoef * s) % q,
        (n * n) % q == (cs * u + bc * v) % q,
        cube_mod(x_in, q) == (cube_mod(th, q) * s) % q,
    ensures
        ({
            let xf = (((x_in * d) % q) * zi) % q;
            let yf = (((zsel * n) % q) * zi) % q;
            (yf * yf) % q == (((xf * xf) * xf) + bc) % q
        }),
{
    let xf = (((x_in * d) % q) * zi) % q;
    let yf = (((zsel * n) % q) * zi) % q;
    lemma_branch_lhs(q, bc, n, d, u, v, mult, bcoef, s, cs, zsel, zz, zi);
    lemma_branch_rhs(q, bc, d, u, v, th, big, mult, bcoef, s, zsel, zz, zi, x_in);
    let c = cube_mod(zz, q);
    let e = cube_mod(zi, q);
    assert((c * e) % q == 1) by {
        lemma_cube_mod_product(zz, zi, q);
        vstd::arithmetic::div_mod::lemma_small_mod(1, q);
    }
    lemma_mod_cancel((yf * yf) % q, (((xf * xf) * xf) + bc) % q, c, e, q);
}

} // verus!
