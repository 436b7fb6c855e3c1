//! The BLS12-377 instance: the curve constants, the trusted calls into
//! the arkworks base-field arithmetic, the collapsed form of the
//! auxiliary map `h'` (here `b = 1`, one exponentiation acts as a
//! ninth-root-like extraction, and the ninth-root constant `z` is the
//! never-read sentinel zero), and the proofs of the constant identities.
use vstd::prelude::*;
use ark_ff::PrimeField;
use ark_ff::BigInteger;
use ark_ff::Field;
use crate::arith::be_val;
use crate::arith::pow_mod;
use crate::arith::inv_mod;
use crate::arith::lemma_be_val_push;
use crate::arith::lemma_inv_mod_unique;
use crate::arith::lemma_pow_mod_square;
use crate::arith::lemma_pow_mod_cube;
use crate::arith::cube_mod;
use crate::arith::lemma_cube_mod_unreduced;
use crate::arith::lemma_cube_mod_product;
use crate::arith::lemma_cube_mod_mul_unit;
use crate::field::Fp;
use crate::field::fp_eq;
use crate::field::fp_lt;
use crate::field::fp_is_zero;
use crate::field::fp_copy;
use crate::hash::IndifferentiableHash;
use crate::hash::pair_val;

verus! {

/// The prime modulus of the BLS12-377 base field.
pub open spec fn q377_v() -> nat {
    0x1ae3a4617c510eac63b05c06ca1493b1a22d9f300f5138f1ef3622fba094800170b5d44300000008508c00000000001_nat
}
/// The curve coefficient `b = 1` of the BLS12-377 G1 curve.
pub open spec fn b377_v() -> nat {
    0x1_nat
}
/// A square root of `b`: here the residue `q - 1`, standing for `-1`.
pub open spec fn sb377_v() -> nat {
    0x1ae3a4617c510eac63b05c06ca1493b1a22d9f300f5138f1ef3622fba094800170b5d44300000008508c00000000000_nat
}
/// A primitive cube root of unity in the base field.
pub open spec fn w377_v() -> nat {
    0x9b3af05dd14f6ec619aaf7d34594aabc5ed1347970dec00452217cc900000008508c00000000001_nat
}
/// The exponent `m = (q - 7) / 9` of the root extraction.
pub open spec fn m377_v() -> nat {
    0x2fcd9602a41e52f994c7c00c11ebb13bcafbc5aac5e5ba91a943cc6a010800028f7c2405555555641d6aaaaaaaaaaa_nat
}
/// x-coordinate of the fixed G1 generator.
pub open spec fn gen377_x_v() -> nat {
    0x8848defe740a67c8fc6225bf87ff5485951e2caa9d41bb188282c8bd37cb5cd5481512ffcd394eeab9b16eb21be9ef_nat
}
/// y-coordinate of the fixed G1 generator.
pub open spec fn gen377_y_v() -> nat {
    0x1914a69c5102eff1f674f5d30afeec4bd7fb348ca3e52d96d182ad44fb82305c2fe3d3634a9591afd82de55559c8ea6_nat
}

/// Relies on arkworks addition in the BLS12-377 base field: the sum of
/// two canonical residues, reduced modulo the field prime.
#[verifier::external_body]
fn fq377_add(a: &Fp, b: &Fp) -> (r: Fp)
    requires
        a.wf(q377_v()),
        b.wf(q377_v()),
    ensures
        r.wf(q377_v()),
        r.val() == (a.val() + b.val()) % q377_v(),
{
    let x = ark_bls12_377::Fq::from_be_bytes_mod_order(&a.bytes);
    let y = ark_bls12_377::Fq::from_be_bytes_mod_order(&b.bytes);
    Fp { bytes: (x + y).into_bigint().to_bytes_be() }
}

/// Relies on arkworks subtraction in the BLS12-377 base field: the
/// difference of two canonical residues, reduced modulo the field prime.
#[verifier::external_body]
fn fq377_sub(a: &Fp, b: &Fp) -> (r: Fp)
    requires
        a.wf(q377_v()),
        b.wf(q377_v()),
    ensures
        r.wf(q377_v()),
        r.val() == (a.val() - b.val()) % (q377_v() as int),
{
    let x = ark_bls12_377::Fq::from_be_bytes_mod_order(&a.bytes);
    let y = ark_bls12_377::Fq::from_be_bytes_mod_order(&b.bytes);
    Fp { bytes: (x - y).into_bigint().to_bytes_be() }
}

/// Relies on arkworks multiplication in the BLS12-377 base field: the
/// product of two canonical residues, reduced modulo the field prime.
#[verifier::external_body]
fn fq377_mul(a: &Fp, b: &Fp) -> (r: Fp)
    requires
        a.wf(q377_v()),
        b.wf(q377_v()),
    ensures
        r.wf(q377_v()),
        r.val() == (a.val() * b.val()) % q377_v(),
{
    let x = ark_bls12_377::Fq::from_be_bytes_mod_order(&a.bytes);
    let y = ark_bls12_377::Fq::from_be_bytes_mod_order(&b.bytes);
    Fp { bytes: (x * y).into_bigint().to_bytes_be() }
}

/// Relies on arkworks exponentiation in the BLS12-377 base field: the
/// base raised to the exponent's integer value, reduced modulo the
/// field prime.
#[verifier::external_body]
fn fq377_pow(a: &Fp, e: &Fp) -> (r: Fp)
    requires
        a.wf(q377_v()),
        e.wf(q377_v()),
    ensures
        r.wf(q377_v()),
        r.val() == pow_mod(a.val(), e.val(), q377_v()),
{
    let x = ark_bls12_377::Fq::from_be_bytes_mod_order(&a.bytes);
    let ebi = ark_bls12_377::Fq::from_be_bytes_mod_order(&e.bytes).into_bigint();
    Fp { bytes: x.pow(ebi).into_bigint().to_bytes_be() }
}

/// Relies on arkworks inversion in the BLS12-377 base field: a residue
/// whose product with the non-zero argument is one.
#[verifier::external_body]
fn fq377_inv(a: &Fp) -> (r: Fp)
    requires
        a.wf(q377_v()),
        a.val() != 0,
    ensures
        r.wf(q377_v()),
        (a.val() * r.val()) % q377_v() == 1,
{
    let x = ark_bls12_377::Fq::from_be_bytes_mod_order(&a.bytes);
    Fp { bytes: x.inverse().unwrap().into_bigint().to_bytes_be() }
}

/// Relies on arkworks big-endian reduction in the BLS12-377 base field:
/// the byte string's integer value, reduced modulo the field prime.
#[verifier::external_body]
fn fq377_reduce(bytes: &Vec<u8>) -> (r: Fp)
    ensures
        r.wf(q377_v()),
        r.val() == be_val(bytes@) % q377_v(),
{
    let x = ark_bls12_377::Fq::from_be_bytes_mod_order(bytes.as_slice());
    Fp { bytes: x.into_bigint().to_bytes_be() }
}
/// Canonical bytes of the coefficient `b`.
fn b377_bytes() -> (r: Vec<u8>)
    ensures
        r@.len() == 48,
        be_val(r@) == b377_v(),
{
    broadcast use lemma_be_val_push;

    let mut v: Vec<u8> = Vec::new();
    v.push(0x00);
    v.push(0x00);
    v.push(0x00);
    v.push(0x00);
    v.push(0x00);
    v.push(0x00);
    v.push(0x00);
    v.push(0x00);
    v.push(0x00);
    v.push(0x00);
    v.push(0x00);
    v.push(0x00);
    v.push(0x00);
    v.push(0x00);
    v.push(0x00);
    v.push(0x00);
    v.push(0x00);
    v.push(0x00);
    v.push(0x00);
    v.push(0x00);
    v.push(0x00);
    v.push(0x00);
    v.push(0x00);
    v.push(0x00);
    v.push(0x00);
    v.push(0x00);
    v.push(0x00);
    v.push(0x00);
    v.push(0x00);
    v.push(0x00);
    v.push(0x00);
    v.push(0x00);
    v.push(0x00);
    v.push(0x00);
    v.push(0x00);
    v.push(0x00);
    v.push(0x00);
    v.push(0x00);
    v.push(0x00);
    v.push(0x00);
    v.push(0x00);
    v.push(0x00);
    v.push(0x00);
    v.push(0x00);
    v.push(0x00);
    v.push(0x00);
    v.push(0x00);
    v.push(0x01);
    v
}
/// Canonical bytes of the square root of `b`.
fn sb377_bytes() -> (r: Vec<u8>)
    ensures
        r@.len() == 48,
        be_val(r@) == sb377_v(),
{
    broadcast use lemma_be_val_push;

    let mut v: Vec<u8> = Vec::new();
    v.push(0x01);
    v.push(0xae);
    v.push(0x3a);
    v.push(0x46);
    v.push(0x17);
    v.push(0xc5);
    v.push(0x10);
    v.push(0xea);
    v.push(0xc6);
    v.push(0x3b);
    v.push(0x05);
    v.push(0xc0);
    v.push(0x6c);
    v.push(0xa1);
    v.push(0x49);
    v.push(0x3b);
    v.push(0x1a);
    v.push(0x22);
    v.push(0xd9);
    v.push(0xf3);
    v.push(0x00);
    v.push(0xf5);
    v.push(0x13);
    v.push(0x8f);
    v.push(0x1e);
    v.push(0xf3);
    v.push(0x62);
    v.push(0x2f);
    v.push(0xba);
    v.push(0x09);
    v.push(0x48);
    v.push(0x00);
    v.push(0x17);
    v.push(0x0b);
    v.push(0x5d);
    v.push(0x44);
    v.push(0x30);
    v.push(0x00);
    v.push(0x00);
    v.push(0x00);
    v.push(0x85);
    v.push(0x08);
    v.push(0xc0);
    v.push(0x00);
    v.push(0x00);
    v.push(0x00);
    v.push(0x00);
    v.push(0x00);
    v
}
/// Canonical bytes of the cube root of unity `w`.
fn w377_bytes() -> (r: Vec<u8>)
    ensures
        r@.len() == 48,
        be_val(r@) == w377_v(),
{
    broadcast use lemma_be_val_push;

    let mut v: Vec<u8> = Vec::new();
    v.push(0x00);
    v.push(0x00);
    v.push(0x00);
    v.push(0x00);
    v.push(0x00);
    v.push(0x00);
    v.push(0x00);
    v.push(0x00);
    v.push(0x09);
    v.push(0xb3);
    v.push(0xaf);
    v.push(0x05);
    v.push(0xdd);
    v.push(0x14);
    v.push(0xf6);
    v.push(0xec);
    v.push(0x61);
    v.push(0x9a);
    v.push(0xaf);
    v.push(0x7d);
    v.push(0x34);
    v.push(0x59);
    v.push(0x4a);
    v.push(0xab);
    v.push(0xc5);
    v.push(0xed);
    v.push(0x13);
    v.push(0x47);
    v.push(0x97);
    v.push(0x0d);
    v.push(0xec);
    v.push(0x00);
    v.push(0x45);
    v.push(0x22);
    v.push(0x17);
    v.push(0xcc);
    v.push(0x90);
    v.push(0x00);
    v.push(0x00);
    v.push(0x00);
    v.push(0x85);
    v.push(0x08);
    v.push(0xc0);
    v.push(0x00);
    v.push(0x00);
    v.push(0x00);
    v.push(0x00);
    v.push(0x01);
    v
}
/// Canonical bytes of the exponent `m`.
fn m377_bytes() -> (r: Vec<u8>)
    ensures
        r@.len() == 48,
        be_val(r@) == m377_v(),
{
    broadcast use lemma_be_val_push;

    let mut v: Vec<u8> = Vec::new();
    v.push(0x00);
    v.push(0x2f);
    v.push(0xcd);
    v.push(0x96);
    v.push(0x02);
    v.push(0xa4);
    v.push(0x1e);
    v.push(0x52);
    v.push(0xf9);
    v.push(0x94);
    v.push(0xc7);
    v.push(0xc0);
    v.push(0x0c);
    v.push(0x11);
    v.push(0xeb);
    v.push(0xb1);
    v.push(0x3b);
    v.push(0xca);
    v.push(0xfb);
    v.push(0xc5);
    v.push(0xaa);
    v.push(0xc5);
    v.push(0xe5);
    v.push(0xba);
    v.push(0x91);
    v.push(0xa9);
    v.push(0x43);
    v.push(0xcc);
    v.push(0x6a);
    v.push(0x01);
    v.push(0x08);
    v.push(0x00);
    v.push(0x02);
    v.push(0x8f);
    v.push(0x7c);
    v.push(0x24);
    v.push(0x05);
    v.push(0x55);
    v.push(0x55);
    v.push(0x55);
    v.push(0x64);
    v.push(0x1d);
    v.push(0x6a);
    v.push(0xaa);
    v.push(0xaa);
    v.push(0xaa);
    v.push(0xaa);
    v.push(0xaa);
    v
}
/// Canonical bytes of the generator's x-coordinate.
fn gen377_x_bytes() -> (r: Vec<u8>)
    ensures
        r@.len() == 48,
        be_val(r@) == gen377_x_v(),
{
    broadcast use lemma_be_val_push;

    let mut v: Vec<u8> = Vec::new();
    v.push(0x00);
    v.push(0x88);
    v.push(0x48);
    v.push(0xde);
    v.push(0xfe);
    v.push(0x74);
    v.push(0x0a);
    v.push(0x67);
    v.push(0xc8);
    v.push(0xfc);
    v.push(0x62);
    v.push(0x25);
    v.push(0xbf);
    v.push(0x87);
    v.push(0xff);
    v.push(0x54);
    v.push(0x85);
    v.push(0x95);
    v.push(0x1e);
    v.push(0x2c);
    v.push(0xaa);
    v.push(0x9d);
    v.push(0x41);
    v.push(0xbb);
    v.push(0x18);
    v.push(0x82);
    v.push(0x82);
    v.push(0xc8);
    v.push(0xbd);
    v.push(0x37);
    v.push(0xcb);
    v.push(0x5c);
    v.push(0xd5);
    v.push(0x48);
    v.push(0x15);
    v.push(0x12);
    v.push(0xff);
    v.push(0xcd);
    v.push(0x39);
    v.push(0x4e);
    v.push(0xea);
    v.push(0xb9);
    v.push(0xb1);
    v.push(0x6e);
    v.push(0xb2);
    v.push(0x1b);
    v.push(0xe9);
    v.push(0xef);
    v
}
/// Canonical bytes of the generator's y-coordinate.
fn gen377_y_bytes() -> (r: Vec<u8>)
    ensures
        r@.len() == 48,
        be_val(r@) == gen377_y_v(),
{
    broadcast use lemma_be_val_push;

    let mut v: Vec<u8> = Vec::new();
    v.push(0x01);
    v.push(0x91);
    v.push(0x4a);
    v.push(0x69);
    v.push(0xc5);
    v.push(0x10);
    v.push(0x2e);
    v.push(0xff);
    v.push(0x1f);
    v.push(0x67);
    v.push(0x4f);
    v.push(0x5d);
    v.push(0x30);
    v.push(0xaf);
    v.push(0xee);
    v.push(0xc4);
    v.push(0xbd);
    v.push(0x7f);
    v.push(0xb3);
    v.push(0x48);
    v.push(0xca);
    v.push(0x3e);
    v.push(0x52);
    v.push(0xd9);
    v.push(0x6d);
    v.push(0x18);
    v.push(0x2a);
    v.push(0xd4);
    v.push(0x4f);
    v.push(0xb8);
    v.push(0x23);
    v.push(0x05);
    v.push(0xc2);
    v.push(0xfe);
    v.push(0x3d);
    v.push(0x36);
    v.push(0x34);
    v.push(0xa9);
    v.push(0x59);
    v.push(0x1a);
    v.push(0xfd);
    v.push(0x82);
    v.push(0xde);
    v.push(0x55);
    v.push(0x55);
    v.push(0x9c);
    v.push(0x8e);
    v.push(0xa6);
    v
}

/// The cube root of unity `w` as a field element.
fn w377_fp() -> (r: Fp)
    ensures
        r.wf(q377_v()),
        r.val() == w377_v(),
{
    Fp { bytes: w377_bytes() }
}

/// The exponent `m` as a field element.
fn m377_fp() -> (r: Fp)
    ensures
        r.wf(q377_v()),
        r.val() == m377_v(),
{
    Fp { bytes: m377_bytes() }
}

/// The all-zero field element, the sentinel value of `z` on this curve.
fn fp377_zero() -> (r: Fp)
    ensures
        r.wf(q377_v()),
        r.val() == 0,
{
    broadcast use lemma_be_val_push;

    let mut v: Vec<u8> = Vec::new();
    let mut i: usize = 0;
    while i < 48
        invariant
            0 <= i <= 48,
            v@.len() == i,
            be_val(v@) == 0,
        decreases 48 - i,
    {
        let ghost prev = v@;
        v.push(0);
        proof {
            lemma_be_val_push(prev, 0);
        }
        i = i + 1;
    }
    Fp { bytes: v }
}

/// The first stage of the collapsed `h'`: `v = d^2`, `u = n0^2 - v`,
/// the exponentiation `th = u * v^5 * (u * v^8)^m`, and the oracle
/// value `big = th^3 * v`.
pub open spec fn stage377_s(n0: nat, d: nat) -> (nat, nat, nat, nat) {
    let q = q377_v();
    let v = (d * d) % q;
    let u = ((((n0 * n0) % q) as int - (v as int)) % (q as int)) as nat;
    let v2 = (v * v) % q;
    let v4 = (v2 * v2) % q;
    let v5 = (v * v4) % q;
    let v8 = (v4 * v4) % q;
    let tmp = pow_mod((u * v8) % q, m377_v(), q);
    let th = (((u * v5) % q) * tmp) % q;
    let big = (((((th * th) % q) * th) % q) * v) % q;
    (v, u, th, big)
}

/// Compute the first stage of the collapsed `h'`.
fn stage377(n0: &Fp, d: &Fp) -> (r: (Fp, Fp, Fp, Fp))
    requires
        n0.wf(q377_v()),
        d.wf(q377_v()),
    ensures
        r.0.wf(q377_v()),
        r.1.wf(q377_v()),
        r.2.wf(q377_v()),
        r.3.wf(q377_v()),
        (r.0.val(), r.1.val(), r.2.val(), r.3.val()) == stage377_s(n0.val(), d.val()),
{
    let m = m377_fp();
    let v = fq377_mul(d, d);
    let n0sq = fq377_mul(n0, n0);
    let u = fq377_sub(&n0sq, &v);
    let v2 = fq377_mul(&v, &v);
    let v4 = fq377_mul(&v2, &v2);
    let v5 = fq377_mul(&v, &v4);
    let v8 = fq377_mul(&v4, &v4);
    let tmp0 = fq377_mul(&u, &v8);
    let tmp = fq377_pow(&tmp0, &m);
    let uv5 = fq377_mul(&u, &v5);
    let th = fq377_mul(&uv5, &tmp);
    let th2 = fq377_mul(&th, &th);
    let th3 = fq377_mul(&th2, &th);
    let big = fq377_mul(&th3, &v);
    (v, u, th, big)
}

/// The canonical cube-root selector: `th`, multiplied by `w` once for
/// each of the two order tests on `t1`.
pub open spec fn wzeta377_s(th: nat, t1: nat) -> nat {
    let q = q377_v();
    let w = w377_v();
    let w2 = (w * w) % q;
    let wz1 = if t1 > (w * t1) % q {
        (th * w) % q
    } else {
        th
    };
    if t1 > (w2 * t1) % q {
        (wz1 * w) % q
    } else {
        wz1
    }
}

/// Compute the canonical cube-root selector.
fn wzeta377(th: &Fp, t1: &Fp) -> (r: Fp)
    requires
        th.wf(q377_v()),
        t1.wf(q377_v()),
    ensures
        r.wf(q377_v()),
        r.val() == wzeta377_s(th.val(), t1.val()),
{
    let ww = w377_fp();
    let w2 = fq377_mul(&ww, &ww);
    let wt1 = fq377_mul(&ww, t1);
    let w2t1 = fq377_mul(&w2, t1);
    let wz1 = if fp_lt(&wt1, t1) {
        fq377_mul(th, &ww)
    } else {
        fp_copy(th)
    };
    if fp_lt(&w2t1, t1) {
        fq377_mul(&wz1, &ww)
    } else {
        wz1
    }
}

/// Finalize the collapsed `h'`: keep the x-coordinate, divide the
/// y-coordinate by the denominator.
pub open spec fn finish377_s(x: nat, y: nat, d: nat) -> Option<(nat, nat)> {
    let q = q377_v();
    if d == 0 {
        Option::None
    } else {
        let di = inv_mod(d, q);
        Option::Some((x, (y * di) % q))
    }
}

/// Finalize the collapsed `h'` by one field inversion.
fn finish377(x: Fp, y: &Fp, d: &Fp) -> (r: Option<(Fp, Fp)>)
    requires
        x.wf(q377_v()),
        y.wf(q377_v()),
        d.wf(q377_v()),
    ensures
        match r {
            Option::Some((xf, yf)) => xf.wf(q377_v()) && yf.wf(q377_v()),
            Option::None => true,
        },
        pair_val(r) == finish377_s(x.val(), y.val(), d.val()),
        r is Some ==> (d.val() * inv_mod(d.val(), q377_v())) % q377_v() == 1,
{
    if fp_is_zero(d) {
        Option::None
    } else {
        let di = fq377_inv(d);
        proof {
            lemma_inv_mod_unique(d.val(), di.val(), q377_v());
        }
        let yf = fq377_mul(y, &di);
        Option::Some((x, yf))
    }
}


/// The canonical cube-root selector stays in the cube orbit of `th`:
/// its cube is the cube of `th`.
proof fn lemma_wzeta377_orbit(th: nat, t1: nat)
    requires
        th < q377_v(),
    ensures
        cube_mod(wzeta377_s(th, t1), q377_v()) == cube_mod(th, q377_v()),
{
    let q = q377_v();
    let w = w377_v();
    assert(cube_mod(w, q) == 1) by {
        lemma_w377_cube_root_of_unity();
        lemma_pow_mod_cube(w, q);
        lemma_cube_mod_unreduced(w, q);
    }
    let w2 = (w * w) % q;
    let wz1 = if t1 > (w * t1) % q {
        (th * w) % q
    } else {
        th
    };
    if t1 > (w * t1) % q {
        lemma_cube_mod_mul_unit(th, w, q);
    }
    if t1 > (w2 * t1) % q {
        lemma_cube_mod_mul_unit(wz1, w, q);
    }
}

/// One branch of the collapsed `h'` lands on the curve: with the
/// numerator's threefold relation, the matched oracle value and an
/// inverse of the denominator, the finished point satisfies
/// `y^2 = x^3 + b`.
proof fn lemma_h377_branch(
    n: nat,
    d: nat,
    u: nat,
    v: nat,
    th: nat,
    big: nat,
    bcoef: nat,
    s: nat,
    x_in: nat,
)
    requires
        n < q377_v(),
        d < q377_v(),
        u < q377_v(),
        x_in < q377_v(),
        v == (d * d) % q377_v(),
        big == (cube_mod(th, q377_v()) * v) % q377_v(),
        big == (bcoef * u) % q377_v(),
        (n * n) % q377_v() == (((bcoef * s) % q377_v()) * u + v) % q377_v(),
        cube_mod(x_in, q377_v()) == (cube_mod(th, q377_v()) * s) % q377_v(),
        (d * inv_mod(d, q377_v())) % q377_v() == 1,
    ensures
        crate::hash::curve_eq(q377_v(), b377_v(), x_in, (n * inv_mod(d, q377_v())) % q377_v()),
{
    let q = q377_v();
    let zi = inv_mod(d, q);
    let cs = (bcoef * s) % q;
    vstd::arithmetic::div_mod::lemma_small_mod(d, q);
    vstd::arithmetic::div_mod::lemma_small_mod(n, q);
    vstd::arithmetic::div_mod::lemma_small_mod(u, q);
    vstd::arithmetic::div_mod::lemma_small_mod(1, q);
    assert(cube_mod(1, q) == 1);
    assert(big == (1 * ((bcoef * u) % q)) % q) by {
        vstd::arithmetic::div_mod::lemma_mod_twice((bcoef * u) as int, q as int);
    }
    crate::hash::lemma_branch_on_curve(
        q,
        b377_v(),
        n,
        d,
        u,
        v,
        th,
        big,
        1,
        bcoef,
        s,
        cs,
        1,
        d,
        zi,
        x_in,
    );
    crate::hash::lemma_mul_div_cancel(x_in, d, zi, q);
}

/// The BLS12-377 G1 curve, as served by the hash.
pub struct Bls12377;

impl IndifferentiableHash for Bls12377 {
    open spec fn q() -> nat {
        q377_v()
    }

    open spec fn b_v() -> nat {
        b377_v()
    }

    open spec fn sb_v() -> nat {
        sb377_v()
    }

    open spec fn w_v() -> nat {
        w377_v()
    }

    open spec fn z_v() -> nat {
        0
    }

    open spec fn c_v() -> nat {
        w377_v()
    }

    open spec fn m_v() -> nat {
        m377_v()
    }

    open spec fn xi_v() -> nat {
        w377_v()
    }

    open spec fn gen_x() -> nat {
        gen377_x_v()
    }

    open spec fn gen_y() -> nat {
        gen377_y_v()
    }

    /// The collapsed form of `h'`: one exponentiation, a single
    /// three-way match of `big` against the orbit of `u`, and division
    /// of the y-coordinate by the denominator. The constant `z` is
    /// never consulted.
    open spec fn h_prime_s(n0: nat, n1: nat, n2: nat, d: nat, t1: nat, t2: nat) -> Option<
        (nat, nat),
    > {
        let q = q377_v();
        let w = w377_v();
        let (v, u, th, big) = stage377_s(n0, d);
        let w2 = (w * w) % q;
        let wz = wzeta377_s(th, t1);
        if big == u {
            finish377_s(wz, n0, d)
        } else if big == (w * u) % q {
            finish377_s((th * t1) % q, n1, d)
        } else if big == (w2 * u) % q {
            finish377_s((th * t2) % q, n2, d)
        } else {
            Option::None
        }
    }

    proof fn lemma_params() {
        lemma_sb377_square_root_of_b();
        lemma_pow_mod_square(sb377_v(), q377_v());
        lemma_gen377_on_curve();
    }

    fn fq_add(a: &Fp, b: &Fp) -> (r: Fp) {
        fq377_add(a, b)
    }

    fn fq_sub(a: &Fp, b: &Fp) -> (r: Fp) {
        fq377_sub(a, b)
    }

    fn fq_mul(a: &Fp, b: &Fp) -> (r: Fp) {
        fq377_mul(a, b)
    }

    fn fq_pow(a: &Fp, e: &Fp) -> (r: Fp) {
        fq377_pow(a, e)
    }

    fn fq_inv(a: &Fp) -> (r: Fp) {
        fq377_inv(a)
    }

    fn fq_reduce(bytes: &Vec<u8>) -> (r: Fp) {
        fq377_reduce(bytes)
    }

    fn b_fp() -> (r: Fp) {
        Fp { bytes: b377_bytes() }
    }

    fn sb_fp() -> (r: Fp) {
        Fp { bytes: sb377_bytes() }
    }

    fn w_fp() -> (r: Fp) {
        Fp { bytes: w377_bytes() }
    }

    fn z_fp() -> (r: Fp) {
        fp377_zero()
    }

    fn m_fp() -> (r: Fp) {
        Fp { bytes: m377_bytes() }
    }

    fn xi_fp() -> (r: Fp) {
        Fp { bytes: w377_bytes() }
    }

    fn gen_x_fp() -> (r: Fp) {
        Fp { bytes: gen377_x_bytes() }
    }

    fn gen_y_fp() -> (r: Fp) {
        Fp { bytes: gen377_y_bytes() }
    }

    #[verifier::rlimit(100)]
    fn h_prime(n0: &Fp, n1: &Fp, n2: &Fp, d: &Fp, t1: &Fp, t2: &Fp) -> (r: Option<(Fp, Fp)>) {
        proof {
            Self::lemma_params();
        }
        let ghost q = q377_v();
        let ghost tok = crate::hash::threefold_rel(
            q377_v(),
            b377_v(),
            w377_v(),
            n0.val(),
            n1.val(),
            n2.val(),
            d.val(),
            t1.val(),
            t2.val(),
        );
        let ww = w377_fp();
        let (v, u, th, big) = stage377(n0, d);
        let w2 = fq377_mul(&ww, &ww);
        let wu = fq377_mul(&ww, &u);
        let w2u = fq377_mul(&w2, &u);
        proof {
            vstd::arithmetic::div_mod::lemma_small_mod(u.val(), q);
            vstd::arithmetic::div_mod::lemma_small_mod(v.val(), q);
            vstd::arithmetic::div_mod::lemma_small_mod(1, q);
            vstd::arithmetic::div_mod::lemma_mod_bound((n0.val() * n0.val()) as int, q as int);
            vstd::arithmetic::div_mod::lemma_mod_bound(
                (((th.val() * th.val()) % q) * th.val()) as int,
                q as int,
            );
            lemma_cube_mod_unreduced(t1.val(), q);
            lemma_cube_mod_unreduced(t2.val(), q);
        }
        if fp_eq(&big, &u) {
            let wz = wzeta377(&th, t1);
            let ghost xin = wz.val();
            let res = finish377(wz, n0, d);
            proof {
                if tok && res is Some {
                    crate::hash::lemma_u_restores_square(
                        (n0.val() * n0.val()) % q,
                        v.val(),
                        u.val(),
                        q,
                    );
                    lemma_wzeta377_orbit(th.val(), t1.val());
                    assert((cube_mod(th.val(), q) * 1) % q == cube_mod(th.val(), q));
                    lemma_h377_branch(
                        n0.val(),
                        d.val(),
                        u.val(),
                        v.val(),
                        th.val(),
                        big.val(),
                        1,
                        1,
                        xin,
                    );
                }
            }
            res
        } else if fp_eq(&big, &wu) {
            let x = fq377_mul(&th, t1);
            let ghost xin = x.val();
            let res = finish377(x, n1, d);
            proof {
                if tok && res is Some {
                    assert((b377_v() * v.val()) % q == v.val());
                    lemma_cube_mod_product(th.val(), t1.val(), q);
                    lemma_h377_branch(
                        n1.val(),
                        d.val(),
                        u.val(),
                        v.val(),
                        th.val(),
                        big.val(),
                        w377_v(),
                        cube_mod(t1.val(), q),
                        xin,
                    );
                }
            }
            res
        } else if fp_eq(&big, &w2u) {
            let x = fq377_mul(&th, t2);
            let ghost xin = x.val();
            let res = finish377(x, n2, d);
            proof {
                if tok && res is Some {
                    assert((b377_v() * v.val()) % q == v.val());
                    lemma_cube_mod_product(th.val(), t2.val(), q);
                    lemma_h377_branch(
                        n2.val(),
                        d.val(),
                        u.val(),
                        v.val(),
                        th.val(),
                        big.val(),
                        (w377_v() * w377_v()) % q,
                        cube_mod(t2.val(), q),
                        xin,
                    );
                }
            }
            res
        } else {
            Option::None
        }
    }
}

/// `w` is a primitive cube root of unity: `w^3 = 1` and `w != 1`.
pub proof fn lemma_w377_cube_root_of_unity()
    ensures
        pow_mod(w377_v(), 3, q377_v()) == 1,
        w377_v() != 1,
{
    let w = w377_v();
    let q = q377_v();
    lemma_pow_mod_cube(w, q);
    let k = 0x21f6383650089890acc9753b4e218faf60f41fe7acdf907da5aaac7541b22c9e24625ad23ccae4ec6699b136b91d005308e73ad8a538800cf664765b00000018f1a400000000000_int;
    assert(((w * w) * w) as int == (q as int) * k + 1);
    vstd::arithmetic::div_mod::lemma_mod_multiples_vanish(k, 1, q as int);
    vstd::arithmetic::div_mod::lemma_small_mod(1, q);
}

/// `sb` is a square root of the curve coefficient: `sb^2 = b = 1`.
/// Here `sb = q - 1`, the residue of `-1`.
pub proof fn lemma_sb377_square_root_of_b()
    ensures
        pow_mod(sb377_v(), 2, q377_v()) == b377_v(),
{
    let sb = sb377_v();
    let q = q377_v();
    lemma_pow_mod_square(sb, q);
    assert((sb * sb) as int == (q as int) * ((q as int) - 2) + 1);
    vstd::arithmetic::div_mod::lemma_mod_multiples_vanish((q as int) - 2, 1, q as int);
    vstd::arithmetic::div_mod::lemma_small_mod(1, q);
}

/// The exponent is exact: `m = (q - 7) / 9`.
pub proof fn lemma_m377_exponent()
    ensures
        9 * m377_v() + 7 == q377_v(),
{
}


/// The fixed generator lies on the curve: `gen_y^2 = gen_x^3 + b`.
pub proof fn lemma_gen377_on_curve()
    ensures
        crate::hash::curve_eq(q377_v(), b377_v(), gen377_x_v(), gen377_y_v()),
{
    let q = q377_v();
    let x = gen377_x_v();
    let y = gen377_y_v();
    let k = 0x16fb979246521969be93ff6671b80bbf60da063651524b42c53edc913397622bb2e575a8dffcfdf380272ed9b24322c63a4bad123cf74ccc3639e049384bfffa685f72f3037a82f60c55d871c53ea324ab844feaa03ad0caece44650d72c_int;
    assert(((x * x) * x + b377_v()) as int == (q as int) * k + (y * y) as int);
    vstd::arithmetic::div_mod::lemma_mod_multiples_vanish(k, (y * y) as int, q as int);
}

} // verus!

