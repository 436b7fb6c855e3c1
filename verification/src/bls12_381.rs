//! The BLS12-381 instance: the curve constants, the trusted calls into
//! the arkworks base-field arithmetic, the full form of the auxiliary map
//! `h'`, and the proofs of the algebraic constant identities.
use vstd::prelude::*;
use ark_ff::PrimeField;
use ark_ff::BigInteger;
use ark_ff::Field;
use crate::arith::be_val;
use crate::arith::pow_mod;
use crate::arith::inv_mod;
use crate::arith::lemma_be_val_push;
use crate::arith::lemma_inv_mod_unique;
use crate::arith::lemma_pow_mod_square;
use crate::arith::lemma_pow_mod_cube;
use crate::arith::lemma_pow_mod_ninth;
use crate::arith::cube_mod;
use crate::arith::lemma_cube_mod_unreduced;
use crate::arith::lemma_cube_mod_product;
use crate::arith::lemma_cube_mod_mul_unit;
use crate::field::Fp;
use crate::field::fp_eq;
use crate::field::fp_lt;
use crate::field::fp_is_zero;
use crate::field::fp_copy;
use crate::hash::IndifferentiableHash;
use crate::hash::pair_val;

verus! {

/// The prime modulus of the BLS12-381 base field.
pub open spec fn q381_v() -> nat {
    0x1a0111ea397fe69a4b1ba7b6434bacd764774b84f38512bf6730d2a0f6b0f6241eabfffeb153ffffb9feffffffffaaab_nat
}
/// The curve coefficient `b = 4` of the BLS12-381 G1 curve.
pub open spec fn b381_v() -> nat {
    0x4_nat
}
/// A square root of `b` in the base field.
pub open spec fn sb381_v() -> nat {
    0x1a0111ea397fe69a4b1ba7b6434bacd764774b84f38512bf6730d2a0f6b0f6241eabfffeb153ffffb9feffffffffaaa9_nat
}
/// The primitive cube root of unity `b^((q-1)/3)`.
pub open spec fn w381_v() -> nat {
    0x5f19672fdf76ce51ba69c6076a0f77eaddb3a93be6f89688de17d813620a00022e01fffffffefffe_nat
}
/// A primitive ninth root of unity with `z^3 = w`.
pub open spec fn z381_v() -> nat {
    0x443913130e994ba6d702ebe18e46fbe348483b2598700475b98f722777c7c3c7799e9d9c4552a7e40ef87071b647b54_nat
}
/// A cube root of `b / z^2`. The quotient `b / z` itself is a cubic
/// non-residue in this field, for this and for every other ninth root of
/// unity whose cube is `w`, so the field admits no root of it; `b / z^2`
/// is a cube, and this constant is its smallest cube root.
pub open spec fn c381_v() -> nat {
    0x36fec6b3b043dd8bdadfac6a50d7e7145ba60e229cc2e9a15bace3fd5c1f14425350c82f61a266e154788f7bcb15550_nat
}
/// The exponent `m = (q - 10) / 27` of the root extraction.
pub open spec fn m381_v() -> nat {
    0xf68ee2bfc25ddfc9e4946f0bf95240ddcb8789aa34560716c8eb5b4b81d03a3a065ed08b4ef684bb0971c71c71c3f3_nat
}
/// x-coordinate of the fixed G1 generator.
pub open spec fn gen381_x_v() -> nat {
    0x17f1d3a73197d7942695638c4fa9ac0fc3688c4f9774b905a14e3a3f171bac586c55e83ff97a1aeffb3af00adb22c6bb_nat
}
/// y-coordinate of the fixed G1 generator.
pub open spec fn gen381_y_v() -> nat {
    0x8b3f481e3aaa0f1a09e30ed741d8ae4fcf5e095d5d00af600db18cb2c04b3edd03cc744a2888ae40caa232946c5e7e1_nat
}

/// Relies on arkworks addition in the BLS12-381 base field: the sum of
/// two canonical residues, reduced modulo the field prime.
#[verifier::external_body]
fn fq381_add(a: &Fp, b: &Fp) -> (r: Fp)
    requires
        a.wf(q381_v()),
        b.wf(q381_v()),
    ensures
        r.wf(q381_v()),
        r.val() == (a.val() + b.val()) % q381_v(),
{
    let x = ark_bls12_381::Fq::from_be_bytes_mod_order(&a.bytes);
    let y = ark_bls12_381::Fq::from_be_bytes_mod_order(&b.bytes);
    Fp { bytes: (x + y).into_bigint().to_bytes_be() }
}

/// Relies on arkworks subtraction in the BLS12-381 base field: the
/// difference of two canonical residues, reduced modulo the field prime.
#[verifier::external_body]
fn fq381_sub(a: &Fp, b: &Fp) -> (r: Fp)
    requires
        a.wf(q381_v()),
        b.wf(q381_v()),
    ensures
        r.wf(q381_v()),
        r.val() == (a.val() - b.val()) % (q381_v() as int),
{
    let x = ark_bls12_381::Fq::from_be_bytes_mod_order(&a.bytes);
    let y = ark_bls12_381::Fq::from_be_bytes_mod_order(&b.bytes);
    Fp { bytes: (x - y).into_bigint().to_bytes_be() }
}

/// Relies on arkworks multiplication in the BLS12-381 base field: the
/// product of two canonical residues, reduced modulo the field prime.
#[verifier::external_body]
fn fq381_mul(a: &Fp, b: &Fp) -> (r: Fp)
    requires
        a.wf(q381_v()),
        b.wf(q381_v()),
    ensures
        r.wf(q381_v()),
        r.val() == (a.val() * b.val()) % q381_v(),
{
    let x = ark_bls12_381::Fq::from_be_bytes_mod_order(&a.bytes);
    let y = ark_bls12_381::Fq::from_be_bytes_mod_order(&b.bytes);
    Fp { bytes: (x * y).into_bigint().to_bytes_be() }
}

/// Relies on arkworks exponentiation in the BLS12-381 base field: the
/// base raised to the exponent's integer value, reduced modulo the
/// field prime.
#[verifier::external_body]
fn fq381_pow(a: &Fp, e: &Fp) -> (r: Fp)
    requires
        a.wf(q381_v()),
        e.wf(q381_v()),
    ensures
        r.wf(q381_v()),
        r.val() == pow_mod(a.val(), e.val(), q381_v()),
{
    let x = ark_bls12_381::Fq::from_be_bytes_mod_order(&a.bytes);
    let ebi = ark_bls12_381::Fq::from_be_bytes_mod_order(&e.bytes).into_bigint();
    Fp { bytes: x.pow(ebi).into_bigint().to_bytes_be() }
}

/// Relies on arkworks inversion in the BLS12-381 base field: a residue
/// whose product with the non-zero argument is one.
#[verifier::external_body]
fn fq381_inv(a: &Fp) -> (r: Fp)
    requires
        a.wf(q381_v()),
        a.val() != 0,
    ensures
        r.wf(q381_v()),
        (a.val() * r.val()) % q381_v() == 1,
{
    let x = ark_bls12_381::Fq::from_be_bytes_mod_order(&a.bytes);
    Fp { bytes: x.inverse().unwrap().into_bigint().to_bytes_be() }
}

/// Relies on arkworks big-endian reduction in the BLS12-381 base field:
/// the byte string's integer value, reduced modulo the field prime.
#[verifier::external_body]
fn fq381_reduce(bytes: &Vec<u8>) -> (r: Fp)
    ensures
        r.wf(q381_v()),
        r.val() == be_val(bytes@) % q381_v(),
{
    let x = ark_bls12_381::Fq::from_be_bytes_mod_order(bytes.as_slice());
    Fp { bytes: x.into_bigint().to_bytes_be() }
}
/// Canonical bytes of the coefficient `b`.
fn b381_bytes() -> (r: Vec<u8>)
    ensures
        r@.len() == 48,
        be_val(r@) == b381_v(),
{
    broadcast use lemma_be_val_push;

    let mut v: Vec<u8> = Vec::new();
    v.push(0x00);
    v.push(0x00);
    v.push(0x00);
    v.push(0x00);
    v.push(0x00);
    v.push(0x00);
    v.push(0x00);
    v.push(0x00);
    v.push(0x00);
    v.push(0x00);
    v.push(0x00);
    v.push(0x00);
    v.push(0x00);
    v.push(0x00);
    v.push(0x00);
    v.push(0x00);
    v.push(0x00);
    v.push(0x00);
    v.push(0x00);
    v.push(0x00);
    v.push(0x00);
    v.push(0x00);
    v.push(0x00);
    v.push(0x00);
    v.push(0x00);
    v.push(0x00);
    v.push(0x00);
    v.push(0x00);
    v.push(0x00);
    v.push(0x00);
    v.push(0x00);
    v.push(0x00);
    v.push(0x00);
    v.push(0x00);
    v.push(0x00);
    v.push(0x00);
    v.push(0x00);
    v.push(0x00);
    v.push(0x00);
    v.push(0x00);
    v.push(0x00);
    v.push(0x00);
    v.push(0x00);
    v.push(0x00);
    v.push(0x00);
    v.push(0x00);
    v.push(0x00);
    v.push(0x04);
    v
}
/// Canonical bytes of the square root of `b`.
fn sb381_bytes() -> (r: Vec<u8>)
    ensures
        r@.len() == 48,
        be_val(r@) == sb381_v(),
{
    broadcast use lemma_be_val_push;

    let mut v: Vec<u8> = Vec::new();
    v.push(0x1a);
    v.push(0x01);
    v.push(0x11);
    v.push(0xea);
    v.push(0x39);
    v.push(0x7f);
    v.push(0xe6);
    v.push(0x9a);
    v.push(0x4b);
    v.push(0x1b);
    v.push(0xa7);
    v.push(0xb6);
    v.push(0x43);
    v.push(0x4b);
    v.push(0xac);
    v.push(0xd7);
    v.push(0x64);
    v.push(0x77);
    v.push(0x4b);
    v.push(0x84);
    v.push(0xf3);
    v.push(0x85);
    v.push(0x12);
    v.push(0xbf);
    v.push(0x67);
    v.push(0x30);
    v.push(0xd2);
    v.push(0xa0);
    v.push(0xf6);
    v.push(0xb0);
    v.push(0xf6);
    v.push(0x24);
    v.push(0x1e);
    v.push(0xab);
    v.push(0xff);
    v.push(0xfe);
    v.push(0xb1);
    v.push(0x53);
    v.push(0xff);
    v.push(0xff);
    v.push(0xb9);
    v.push(0xfe);
    v.push(0xff);
    v.push(0xff);
    v.push(0xff);
    v.push(0xff);
    v.push(0xaa);
    v.push(0xa9);
    v
}
/// Canonical bytes of the cube root of unity `w`.
fn w381_bytes() -> (r: Vec<u8>)
    ensures
        r@.len() == 48,
        be_val(r@) == w381_v(),
{
    broadcast use lemma_be_val_push;

    let mut v: Vec<u8> = Vec::new();
    v.push(0x00);
    v.push(0x00);
    v.push(0x00);
    v.push(0x00);
    v.push(0x00);
    v.push(0x00);
    v.push(0x00);
    v.push(0x00);
    v.push(0x5f);
    v.push(0x19);
    v.push(0x67);
    v.push(0x2f);
    v.push(0xdf);
    v.push(0x76);
    v.push(0xce);
    v.push(0x51);
    v.push(0xba);
    v.push(0x69);
    v.push(0xc6);
    v.push(0x07);
    v.push(0x6a);
    v.push(0x0f);
    v.push(0x77);
    v.push(0xea);
    v.push(0xdd);
    v.push(0xb3);
    v.push(0xa9);
    v.push(0x3b);
    v.push(0xe6);
    v.push(0xf8);
    v.push(0x96);
    v.push(0x88);
    v.push(0xde);
    v.push(0x17);
    v.push(0xd8);
    v.push(0x13);
    v.push(0x62);
    v.push(0x0a);
    v.push(0x00);
    v.push(0x02);
    v.push(0x2e);
    v.push(0x01);
    v.push(0xff);
    v.push(0xff);
    v.push(0xff);
    v.push(0xfe);
    v.push(0xff);
    v.push(0xfe);
    v
}
/// Canonical bytes of the ninth root of unity `z`.
fn z381_bytes() -> (r: Vec<u8>)
    ensures
        r@.len() == 48,
        be_val(r@) == z381_v(),
{
    broadcast use lemma_be_val_push;

    let mut v: Vec<u8> = Vec::new();
    v.push(0x04);
    v.push(0x43);
    v.push(0x91);
    v.push(0x31);
    v.push(0x30);
    v.push(0xe9);
    v.push(0x94);
    v.push(0xba);
    v.push(0x6d);
    v.push(0x70);
    v.push(0x2e);
    v.push(0xbe);
    v.push(0x18);
    v.push(0xe4);
    v.push(0x6f);
    v.push(0xbe);
    v.push(0x34);
    v.push(0x84);
    v.push(0x83);
    v.push(0xb2);
    v.push(0x59);
    v.push(0x87);
    v.push(0x00);
    v.push(0x47);
    v.push(0x5b);
    v.push(0x98);
    v.push(0xf7);
    v.push(0x22);
    v.push(0x77);
    v.push(0x7c);
    v.push(0x7c);
    v.push(0x3c);
    v.push(0x77);
    v.push(0x99);
    v.push(0xe9);
    v.push(0xd9);
    v.push(0xc4);
    v.push(0x55);
    v.push(0x2a);
    v.push(0x7e);
    v.push(0x40);
    v.push(0xef);
    v.push(0x87);
    v.push(0x07);
    v.push(0x1b);
    v.push(0x64);
    v.push(0x7b);
    v.push(0x54);
    v
}
/// Canonical bytes of the exponent `m`.
fn m381_bytes() -> (r: Vec<u8>)
    ensures
        r@.len() == 48,
        be_val(r@) == m381_v(),
{
    broadcast use lemma_be_val_push;

    let mut v: Vec<u8> = Vec::new();
    v.push(0x00);
    v.push(0xf6);
    v.push(0x8e);
    v.push(0xe2);
    v.push(0xbf);
    v.push(0xc2);
    v.push(0x5d);
    v.push(0xdf);
    v.push(0xc9);
    v.push(0xe4);
    v.push(0x94);
    v.push(0x6f);
    v.push(0x0b);
    v.push(0xf9);
    v.push(0x52);
    v.push(0x40);
    v.push(0xdd);
    v.push(0xcb);
    v.push(0x87);
    v.push(0x89);
    v.push(0xaa);
    v.push(0x34);
    v.push(0x56);
    v.push(0x07);
    v.push(0x16);
    v.push(0xc8);
    v.push(0xeb);
    v.push(0x5b);
    v.push(0x4b);
    v.push(0x81);
    v.push(0xd0);
    v.push(0x3a);
    v.push(0x3a);
    v.push(0x06);
    v.push(0x5e);
    v.push(0xd0);
    v.push(0x8b);
    v.push(0x4e);
    v.push(0xf6);
    v.push(0x84);
    v.push(0xbb);
    v.push(0x09);
    v.push(0x71);
    v.push(0xc7);
    v.push(0x1c);
    v.push(0x71);
    v.push(0xc3);
    v.push(0xf3);
    v
}
/// Canonical bytes of the generator's x-coordinate.
fn gen381_x_bytes() -> (r: Vec<u8>)
    ensures
        r@.len() == 48,
        be_val(r@) == gen381_x_v(),
{
    broadcast use lemma_be_val_push;

    let mut v: Vec<u8> = Vec::new();
    v.push(0x17);
    v.push(0xf1);
    v.push(0xd3);
    v.push(0xa7);
    v.push(0x31);
    v.push(0x97);
    v.push(0xd7);
    v.push(0x94);
    v.push(0x26);
    v.push(0x95);
    v.push(0x63);
    v.push(0x8c);
    v.push(0x4f);
    v.push(0xa9);
    v.push(0xac);
    v.push(0x0f);
    v.push(0xc3);
    v.push(0x68);
    v.push(0x8c);
    v.push(0x4f);
    v.push(0x97);
    v.push(0x74);
    v.push(0xb9);
    v.push(0x05);
    v.push(0xa1);
    v.push(0x4e);
    v.push(0x3a);
    v.push(0x3f);
    v.push(0x17);
    v.push(0x1b);
    v.push(0xac);
    v.push(0x58);
    v.push(0x6c);
    v.push(0x55);
    v.push(0xe8);
    v.push(0x3f);
    v.push(0xf9);
    v.push(0x7a);
    v.push(0x1a);
    v.push(0xef);
    v.push(0xfb);
    v.push(0x3a);
    v.push(0xf0);
    v.push(0x0a);
    v.push(0xdb);
    v.push(0x22);
    v.push(0xc6);
    v.push(0xbb);
    v
}
/// Canonical bytes of the generator's y-coordinate.
fn gen381_y_bytes() -> (r: Vec<u8>)
    ensures
        r@.len() == 48,
        be_val(r@) == gen381_y_v(),
{
    broadcast use lemma_be_val_push;

    let mut v: Vec<u8> = Vec::new();
    v.push(0x08);
    v.push(0xb3);
    v.push(0xf4);
    v.push(0x81);
    v.push(0xe3);
    v.push(0xaa);
    v.push(0xa0);
    v.push(0xf1);
    v.push(0xa0);
    v.push(0x9e);
    v.push(0x30);
    v.push(0xed);
    v.push(0x74);
    v.push(0x1d);
    v.push(0x8a);
    v.push(0xe4);
    v.push(0xfc);
    v.push(0xf5);
    v.push(0xe0);
    v.push(0x95);
    v.push(0xd5);
    v.push(0xd0);
    v.push(0x0a);
    v.push(0xf6);
    v.push(0x00);
    v.push(0xdb);
    v.push(0x18);
    v.push(0xcb);
    v.push(0x2c);
    v.push(0x04);
    v.push(0xb3);
    v.push(0xed);
    v.push(0xd0);
    v.push(0x3c);
    v.push(0xc7);
    v.push(0x44);
    v.push(0xa2);
    v.push(0x88);
    v.push(0x8a);
    v.push(0xe4);
    v.push(0x0c);
    v.push(0xaa);
    v.push(0x23);
    v.push(0x29);
    v.push(0x46);
    v.push(0xc5);
    v.push(0xe7);
    v.push(0xe1);
    v
}


/// The coefficient `b` as a field element.
fn b381_fp() -> (r: Fp)
    ensures
        r.wf(q381_v()),
        r.val() == b381_v(),
{
    Fp { bytes: b381_bytes() }
}

/// The exponent `m` as a field element.
fn m381_fp() -> (r: Fp)
    ensures
        r.wf(q381_v()),
        r.val() == m381_v(),
{
    Fp { bytes: m381_bytes() }
}

/// The cube root of unity `w` as a field element.
fn w381_fp() -> (r: Fp)
    ensures
        r.wf(q381_v()),
        r.val() == w381_v(),
{
    Fp { bytes: w381_bytes() }
}

/// The ninth root of unity `z` as a field element.
fn z381_fp() -> (r: Fp)
    ensures
        r.wf(q381_v()),
        r.val() == z381_v(),
{
    Fp { bytes: z381_bytes() }
}

/// The residue one as a field element.
fn fp381_one() -> (r: Fp)
    ensures
        r.wf(q381_v()),
        r.val() == 1,
{
    broadcast use lemma_be_val_push;

    let mut v: Vec<u8> = Vec::new();
    v.push(1);
    proof {
        assert(v@ =~= Seq::empty().push(1u8));
        vstd::arithmetic::div_mod::lemma_small_mod(1, q381_v());
    }
    fq381_reduce(&v)
}

/// The second stage of `h'`: scale the x-coordinate by the denominator,
/// divide by the selected root times the denominator.
pub open spec fn finish381_s(x: nat, y: nat, zs: nat, d: nat) -> Option<(nat, nat)> {
    let q = q381_v();
    let xd = (x * d) % q;
    let zz = (zs * d) % q;
    if zz == 0 {
        Option::None
    } else {
        let zi = inv_mod(zz, q);
        Option::Some(((xd * zi) % q, (y * zi) % q))
    }
}

/// Finalize an `h'` branch: divide by the selected root times the
/// denominator, by field inversion.
fn finish381(x: &Fp, y: &Fp, zs: &Fp, d: &Fp) -> (r: Option<(Fp, Fp)>)
    requires
        x.wf(q381_v()),
        y.wf(q381_v()),
        zs.wf(q381_v()),
        d.wf(q381_v()),
    ensures
        match r {
            Option::Some((xf, yf)) => xf.wf(q381_v()) && yf.wf(q381_v()),
            Option::None => true,
        },
        pair_val(r) == finish381_s(x.val(), y.val(), zs.val(), d.val()),
        r is Some ==> ((zs.val() * d.val()) % q381_v() * inv_mod(
            (zs.val() * d.val()) % q381_v(),
            q381_v(),
        )) % q381_v() == 1,
{
    let xd = fq381_mul(x, d);
    let zz = fq381_mul(zs, d);
    if fp_is_zero(&zz) {
        Option::None
    } else {
        let zi = fq381_inv(&zz);
        proof {
            lemma_inv_mod_unique(zz.val(), zi.val(), q381_v());
        }
        let xf = fq381_mul(&xd, &zi);
        let yf = fq381_mul(y, &zi);
        Option::Some((xf, yf))
    }
}


/// The first stage of `h'`: the squares `v = d^2` and `u = n0^2 - b*v`,
/// the exponentiation `th = u * v^8 * (u^2 * v^25)^m`, and the oracle
/// value `big = th^3 * v`.
pub open spec fn stage381_s(n0: nat, d: nat) -> (nat, nat, nat, nat) {
    let q = q381_v();
    let v = (d * d) % q;
    let u = ((((n0 * n0) % q) as int - ((b381_v() * v) % q) as int) % (q as int)) as nat;
    let v2 = (v * v) % q;
    let v4 = (v2 * v2) % q;
    let v8 = (v4 * v4) % q;
    let v9 = (v * v8) % q;
    let v16 = (v8 * v8) % q;
    let v25 = (v9 * v16) % q;
    let u2 = (u * u) % q;
    let tmp = pow_mod((u2 * v25) % q, m381_v(), q);
    let th = (((u * v8) % q) * tmp) % q;
    let big = (((((th * th) % q) * th) % q) * v) % q;
    (v, u, th, big)
}

/// Compute the first stage of `h'`.
fn stage381(n0: &Fp, d: &Fp) -> (r: (Fp, Fp, Fp, Fp))
    requires
        n0.wf(q381_v()),
        d.wf(q381_v()),
    ensures
        r.0.wf(q381_v()),
        r.1.wf(q381_v()),
        r.2.wf(q381_v()),
        r.3.wf(q381_v()),
        (r.0.val(), r.1.val(), r.2.val(), r.3.val()) == stage381_s(n0.val(), d.val()),
{
    let b = b381_fp();
    let m = m381_fp();
    let v = fq381_mul(d, d);
    let n0sq = fq381_mul(n0, n0);
    let bv = fq381_mul(&b, &v);
    let u = fq381_sub(&n0sq, &bv);
    let v2 = fq381_mul(&v, &v);
    let v4 = fq381_mul(&v2, &v2);
    let v8 = fq381_mul(&v4, &v4);
    let v9 = fq381_mul(&v, &v8);
    let v16 = fq381_mul(&v8, &v8);
    let v25 = fq381_mul(&v9, &v16);
    let u2 = fq381_mul(&u, &u);
    let tmp0 = fq381_mul(&u2, &v25);
    let tmp = fq381_pow(&tmp0, &m);
    let uv8 = fq381_mul(&u, &v8);
    let th = fq381_mul(&uv8, &tmp);
    let th2 = fq381_mul(&th, &th);
    let th3 = fq381_mul(&th2, &th);
    let big = fq381_mul(&th3, &v);
    (v, u, th, big)
}

/// The canonical cube-root selector: `th`, multiplied by `w` once for
/// each of the two order tests on `t1`.
pub open spec fn wzeta381_s(th: nat, t1: nat) -> nat {
    let q = q381_v();
    let w = w381_v();
    let w2 = (w * w) % q;
    let wz1 = if t1 > (w * t1) % q {
        (th * w) % q
    } else {
        th
    };
    if t1 > (w2 * t1) % q {
        (wz1 * w) % q
    } else {
        wz1
    }
}

/// Compute the canonical cube-root selector.
fn wzeta381(th: &Fp, t1: &Fp) -> (r: Fp)
    requires
        th.wf(q381_v()),
        t1.wf(q381_v()),
    ensures
        r.wf(q381_v()),
        r.val() == wzeta381_s(th.val(), t1.val()),
{
    let ww = w381_fp();
    let w2 = fq381_mul(&ww, &ww);
    let wt1 = fq381_mul(&ww, t1);
    let w2t1 = fq381_mul(&w2, t1);
    let wz1 = if fp_lt(&wt1, t1) {
        fq381_mul(th, &ww)
    } else {
        fp_copy(th)
    };
    if fp_lt(&w2t1, t1) {
        fq381_mul(&wz1, &ww)
    } else {
        wz1
    }
}


/// The canonical cube-root selector stays in the cube orbit of `th`:
/// its cube is the cube of `th`.
proof fn lemma_wzeta381_orbit(th: nat, t1: nat)
    requires
        th < q381_v(),
    ensures
        cube_mod(wzeta381_s(th, t1), q381_v()) == cube_mod(th, q381_v()),
{
    let q = q381_v();
    let w = w381_v();
    assert(cube_mod(w, q) == 1) by {
        lemma_w381_cube_root_of_unity();
        lemma_pow_mod_cube(w, q);
        lemma_cube_mod_unreduced(w, q);
    }
    let w2 = (w * w) % q;
    let wz1 = if t1 > (w * t1) % q {
        (th * w) % q
    } else {
        th
    };
    if t1 > (w * t1) % q {
        lemma_cube_mod_mul_unit(th, w, q);
    }
    if t1 > (w2 * t1) % q {
        lemma_cube_mod_mul_unit(wz1, w, q);
    }
}

/// One branch of `h'` lands on the curve: with the numerator's threefold
/// relation, the matched oracle value, the selected root's cube equal to
/// the matched unit, and an inverse of the divisor, the finished point
/// satisfies `y^2 = x^3 + b`.
proof fn lemma_h381_branch(
    n: nat,
    d: nat,
    u: nat,
    v: nat,
    th: nat,
    big: nat,
    mult: nat,
    bcoef: nat,
    s: nat,
    zsel: nat,
    x_in: nat,
)
    requires
        v == (d * d) % q381_v(),
        big == (cube_mod(th, q381_v()) * v) % q381_v(),
        big == (mult * ((bcoef * u) % q381_v())) % q381_v(),
        cube_mod(zsel, q381_v()) == mult,
        (n * n) % q381_v() == (((bcoef * s) % q381_v()) * u + b381_v() * v) % q381_v(),
        cube_mod(x_in, q381_v()) == (cube_mod(th, q381_v()) * s) % q381_v(),
        ((zsel * d) % q381_v() * inv_mod((zsel * d) % q381_v(), q381_v())) % q381_v() == 1,
    ensures
        crate::hash::curve_eq(q381_v(), b381_v(), 
            (((x_in * d) % q381_v()) * inv_mod((zsel * d) % q381_v(), q381_v())) % q381_v(),
            (((zsel * n) % q381_v()) * inv_mod((zsel * d) % q381_v(), q381_v())) % q381_v(),
        ),
{
    let q = q381_v();
    let zz = (zsel * d) % q;
    let zi = inv_mod(zz, q);
    let cs = (bcoef * s) % q;
    crate::hash::lemma_branch_on_curve(
        q,
        b381_v(),
        n,
        d,
        u,
        v,
        th,
        big,
        mult,
        bcoef,
        s,
        cs,
        zsel,
        zz,
        zi,
        x_in,
    );
}

/// The BLS12-381 G1 curve, as served by the hash.
pub struct Bls12381;

impl IndifferentiableHash for Bls12381 {
    open spec fn q() -> nat {
        q381_v()
    }

    open spec fn b_v() -> nat {
        b381_v()
    }

    open spec fn sb_v() -> nat {
        sb381_v()
    }

    open spec fn w_v() -> nat {
        w381_v()
    }

    open spec fn z_v() -> nat {
        z381_v()
    }

    open spec fn c_v() -> nat {
        c381_v()
    }

    open spec fn m_v() -> nat {
        m381_v()
    }

    open spec fn xi_v() -> nat {
        z381_v()
    }

    open spec fn gen_x() -> nat {
        gen381_x_v()
    }

    open spec fn gen_y() -> nat {
        gen381_y_v()
    }

    /// The full form of `h'`: one exponentiation, the cube-root branch
    /// on `V^3` against `U^3`, the inner match on `V` against the orbit
    /// of the branch base, and division by the selected root.
    open spec fn h_prime_s(n0: nat, n1: nat, n2: nat, d: nat, t1: nat, t2: nat) -> Option<
        (nat, nat),
    > {
        let q = q381_v();
        let w = w381_v();
        let z = z381_v();
        let (v, u, th, big) = stage381_s(n0, d);
        let u2 = (u * u) % q;
        let u3 = (u * u2) % q;
        let big3 = (((big * big) % q) * big) % q;
        let w2 = (w * w) % q;
        let z2 = (z * z) % q;
        let wz = wzeta381_s(th, t1);
        if big3 == u3 {
            if big == u {
                finish381_s(wz, (1 * n0) % q, 1, d)
            } else if big == (w * u) % q {
                finish381_s(wz, (z * n0) % q, z, d)
            } else if big == (w2 * u) % q {
                finish381_s(wz, (z2 * n0) % q, z2, d)
            } else {
                Option::None
            }
        } else if big3 == (w * u3) % q {
            let zu = (z * u) % q;
            if big == zu {
                finish381_s((th * t1) % q, (1 * n1) % q, 1, d)
            } else if big == (w * zu) % q {
                finish381_s((th * t1) % q, (z * n1) % q, z, d)
            } else if big == (w2 * zu) % q {
                finish381_s((th * t1) % q, (z2 * n1) % q, z2, d)
            } else {
                Option::None
            }
        } else if big3 == (w2 * u3) % q {
            let z2u = (z2 * u) % q;
            if big == z2u {
                finish381_s((th * t2) % q, (1 * n2) % q, 1, d)
            } else if big == (w * z2u) % q {
                finish381_s((th * t2) % q, (z * n2) % q, z, d)
            } else if big == (w2 * z2u) % q {
                finish381_s((th * t2) % q, (z2 * n2) % q, z2, d)
            } else {
                Option::None
            }
        } else {
            Option::None
        }
    }

    proof fn lemma_params() {
        lemma_sb381_square_root_of_b();
        lemma_pow_mod_square(sb381_v(), q381_v());
        lemma_gen381_on_curve();
    }

    fn fq_add(a: &Fp, b: &Fp) -> (r: Fp) {
        fq381_add(a, b)
    }

    fn fq_sub(a: &Fp, b: &Fp) -> (r: Fp) {
        fq381_sub(a, b)
    }

    fn fq_mul(a: &Fp, b: &Fp) -> (r: Fp) {
        fq381_mul(a, b)
    }

    fn fq_pow(a: &Fp, e: &Fp) -> (r: Fp) {
        fq381_pow(a, e)
    }

    fn fq_inv(a: &Fp) -> (r: Fp) {
        fq381_inv(a)
    }

    fn fq_reduce(bytes: &Vec<u8>) -> (r: Fp) {
        fq381_reduce(bytes)
    }

    fn b_fp() -> (r: Fp) {
        Fp { bytes: b381_bytes() }
    }

    fn sb_fp() -> (r: Fp) {
        Fp { bytes: sb381_bytes() }
    }

    fn w_fp() -> (r: Fp) {
        Fp { bytes: w381_bytes() }
    }

    fn z_fp() -> (r: Fp) {
        Fp { bytes: z381_bytes() }
    }

    fn m_fp() -> (r: Fp) {
        Fp { bytes: m381_bytes() }
    }

    fn xi_fp() -> (r: Fp) {
        Fp { bytes: z381_bytes() }
    }

    fn gen_x_fp() -> (r: Fp) {
        Fp { bytes: gen381_x_bytes() }
    }

    fn gen_y_fp() -> (r: Fp) {
        Fp { bytes: gen381_y_bytes() }
    }

    #[verifier::rlimit(100)]
    fn h_prime(n0: &Fp, n1: &Fp, n2: &Fp, d: &Fp, t1: &Fp, t2: &Fp) -> (r: Option<(Fp, Fp)>) {
        proof {
            Self::lemma_params();
        }
        let ghost q = q381_v();
        let ghost tok = crate::hash::threefold_rel(
            q381_v(),
            b381_v(),
            z381_v(),
            n0.val(),
            n1.val(),
            n2.val(),
            d.val(),
            t1.val(),
            t2.val(),
        );
        let ww = w381_fp();
        let zz = z381_fp();
        let one = fp381_one();
        let (v, u, th, big) = stage381(n0, d);
        let u2 = fq381_mul(&u, &u);
        let u3 = fq381_mul(&u, &u2);
        let big2 = fq381_mul(&big, &big);
        let big3 = fq381_mul(&big2, &big);
        let w2 = fq381_mul(&ww, &ww);
        let z2 = fq381_mul(&zz, &zz);
        let wz = wzeta381(&th, t1);
        proof {
            vstd::arithmetic::div_mod::lemma_small_mod(u.val(), q);
            vstd::arithmetic::div_mod::lemma_small_mod(1, q);
            vstd::arithmetic::div_mod::lemma_mod_bound((n0.val() * n0.val()) as int, q as int);
            vstd::arithmetic::div_mod::lemma_mod_bound((b381_v() * v.val()) as int, q as int);
            vstd::arithmetic::div_mod::lemma_mod_bound(
                (((th.val() * th.val()) % q) * th.val()) as int,
                q as int,
            );
            vstd::arithmetic::div_mod::lemma_small_mod(cube_mod(th.val(), q), q);
            lemma_cube_mod_unreduced(t1.val(), q);
            lemma_cube_mod_unreduced(t2.val(), q);
            assert(cube_mod(1, q) == 1);
            assert(cube_mod(z381_v(), q) == w381_v()) by {
                lemma_z381_ninth_root_of_unity();
                lemma_pow_mod_cube(z381_v(), q);
                lemma_cube_mod_unreduced(z381_v(), q);
            }
            assert(cube_mod((z381_v() * z381_v()) % q, q) == (w381_v() * w381_v()) % q) by {
                lemma_cube_mod_product(z381_v(), z381_v(), q);
            }
            assert((1 * u.val()) % q == u.val());
        }
        if fp_eq(&big3, &u3) {
            let wu = fq381_mul(&ww, &u);
            let w2u = fq381_mul(&w2, &u);
            proof {
                if tok {
                    crate::hash::lemma_u_restores_square(
                        (n0.val() * n0.val()) % q,
                        (b381_v() * v.val()) % q,
                        u.val(),
                        q,
                    );
                    assert((u.val() + b381_v() * v.val()) % q == (n0.val() * n0.val()) % q) by {
                        vstd::arithmetic::div_mod::lemma_add_mod_noop(
                            u.val() as int,
                            (b381_v() * v.val()) as int,
                            q as int,
                        );
                    }
                    lemma_wzeta381_orbit(th.val(), t1.val());
                }
            }
            if fp_eq(&big, &u) {
                let y = fq381_mul(&one, n0);
                let res = finish381(&wz, &y, &one, d);
                proof {
                    if tok && res is Some {
                        lemma_h381_branch(
                            n0.val(),
                            d.val(),
                            u.val(),
                            v.val(),
                            th.val(),
                            big.val(),
                            1,
                            1,
                            1,
                            1,
                            wz.val(),
                        );
                    }
                }
                res
            } else if fp_eq(&big, &wu) {
                let y = fq381_mul(&zz, n0);
                let res = finish381(&wz, &y, &zz, d);
                proof {
                    if tok && res is Some {
                        lemma_h381_branch(
                            n0.val(),
                            d.val(),
                            u.val(),
                            v.val(),
                            th.val(),
                            big.val(),
                            w381_v(),
                            1,
                            1,
                            z381_v(),
                            wz.val(),
                        );
                    }
                }
                res
            } else if fp_eq(&big, &w2u) {
                let y = fq381_mul(&z2, n0);
                let res = finish381(&wz, &y, &z2, d);
                proof {
                    if tok && res is Some {
                        lemma_h381_branch(
                            n0.val(),
                            d.val(),
                            u.val(),
                            v.val(),
                            th.val(),
                            big.val(),
                            (w381_v() * w381_v()) % q,
                            1,
                            1,
                            (z381_v() * z381_v()) % q,
                            wz.val(),
                        );
                    }
                }
                res
            } else {
                Option::None
            }
        } else {
            let wu3 = fq381_mul(&ww, &u3);
            let w2u3 = fq381_mul(&w2, &u3);
            if fp_eq(&big3, &wu3) {
                let x = fq381_mul(&th, t1);
                let zu = fq381_mul(&zz, &u);
                let wzu = fq381_mul(&ww, &zu);
                let w2zu = fq381_mul(&w2, &zu);
                proof {
                    vstd::arithmetic::div_mod::lemma_small_mod(zu.val(), q);
                    lemma_cube_mod_product(th.val(), t1.val(), q);
                }
                if fp_eq(&big, &zu) {
                    let y = fq381_mul(&one, n1);
                    let res = finish381(&x, &y, &one, d);
                    proof {
                        if tok && res is Some {
                            lemma_h381_branch(
                                n1.val(),
                                d.val(),
                                u.val(),
                                v.val(),
                                th.val(),
                                big.val(),
                                1,
                                z381_v(),
                                cube_mod(t1.val(), q),
                                1,
                                x.val(),
                            );
                        }
                    }
                    res
                } else if fp_eq(&big, &wzu) {
                    let y = fq381_mul(&zz, n1);
                    let res = finish381(&x, &y, &zz, d);
                    proof {
                        if tok && res is Some {
                            lemma_h381_branch(
                                n1.val(),
                                d.val(),
                                u.val(),
                                v.val(),
                                th.val(),
                                big.val(),
                                w381_v(),
                                z381_v(),
                                cube_mod(t1.val(), q),
                                z381_v(),
                                x.val(),
                            );
                        }
                    }
                    res
                } else if fp_eq(&big, &w2zu) {
                    let y = fq381_mul(&z2, n1);
                    let res = finish381(&x, &y, &z2, d);
                    proof {
                        if tok && res is Some {
                            lemma_h381_branch(
                                n1.val(),
                                d.val(),
                                u.val(),
                                v.val(),
                                th.val(),
                                big.val(),
                                (w381_v() * w381_v()) % q,
                                z381_v(),
                                cube_mod(t1.val(), q),
                                (z381_v() * z381_v()) % q,
                                x.val(),
                            );
                        }
                    }
                    res
                } else {
                    Option::None
                }
            } else if fp_eq(&big3, &w2u3) {
                let x = fq381_mul(&th, t2);
                let z2u = fq381_mul(&z2, &u);
                let wz2u = fq381_mul(&ww, &z2u);
                let w2z2u = fq381_mul(&w2, &z2u);
                proof {
                    vstd::arithmetic::div_mod::lemma_small_mod(z2u.val(), q);
                    lemma_cube_mod_product(th.val(), t2.val(), q);
                }
                if fp_eq(&big, &z2u) {
                    let y = fq381_mul(&one, n2);
                    let res = finish381(&x, &y, &one, d);
                    proof {
                        if tok && res is Some {
                            lemma_h381_branch(
                                n2.val(),
                                d.val(),
                                u.val(),
                                v.val(),
                                th.val(),
                                big.val(),
                                1,
                                (z381_v() * z381_v()) % q,
                                cube_mod(t2.val(), q),
                                1,
                                x.val(),
                            );
                        }
                    }
                    res
                } else if fp_eq(&big, &wz2u) {
                    let y = fq381_mul(&zz, n2);
                    let res = finish381(&x, &y, &zz, d);
                    proof {
                        if tok && res is Some {
                            lemma_h381_branch(
                                n2.val(),
                                d.val(),
                                u.val(),
                                v.val(),
                                th.val(),
                                big.val(),
                                w381_v(),
                                (z381_v() * z381_v()) % q,
                                cube_mod(t2.val(), q),
                                z381_v(),
                                x.val(),
                            );
                        }
                    }
                    res
                } else if fp_eq(&big, &w2z2u) {
                    let y = fq381_mul(&z2, n2);
                    let res = finish381(&x, &y, &z2, d);
                    proof {
                        if tok && res is Some {
                            lemma_h381_branch(
                                n2.val(),
                                d.val(),
                                u.val(),
                                v.val(),
                                th.val(),
                                big.val(),
                                (w381_v() * w381_v()) % q,
                                (z381_v() * z381_v()) % q,
                                cube_mod(t2.val(), q),
                                (z381_v() * z381_v()) % q,
                                x.val(),
                            );
                        }
                    }
                    res
                } else {
                    Option::None
                }
            } else {
                Option::None
            }
        }
    }
}

/// `w` is a primitive cube root of unity: `w^3 = 1` and `w != 1`.
pub proof fn lemma_w381_cube_root_of_unity()
    ensures
        pow_mod(w381_v(), 3, q381_v()) == 1,
        w381_v() != 1,
{
    let w = w381_v();
    let q = q381_v();
    lemma_pow_mod_cube(w, q);
    let k = 0x813216167f2384d901a1813b0404262c4a563bae0d227cdd2719a8905ade6b87a545c3515c423b7aca605f3f7a906e03837c7d486a72f181570afcca2b9c1b6651a2ffaeffc0ffe5_int;
    assert(((w * w) * w) as int == (q as int) * k + 1);
    vstd::arithmetic::div_mod::lemma_mod_multiples_vanish(k, 1, q as int);
    vstd::arithmetic::div_mod::lemma_small_mod(1, q);
}

/// `sb` is a square root of the curve coefficient: `sb^2 = b`.
pub proof fn lemma_sb381_square_root_of_b()
    ensures
        pow_mod(sb381_v(), 2, q381_v()) == b381_v(),
{
    let sb = sb381_v();
    let q = q381_v();
    lemma_pow_mod_square(sb, q);
    let k = 0x1a0111ea397fe69a4b1ba7b6434bacd764774b84f38512bf6730d2a0f6b0f6241eabfffeb153ffffb9feffffffffaaa7_int;
    assert((sb * sb) as int == (q as int) * k + 4);
    vstd::arithmetic::div_mod::lemma_mod_multiples_vanish(k, 4, q as int);
    vstd::arithmetic::div_mod::lemma_small_mod(4, q);
}

/// `z` is a primitive ninth root of unity whose cube is `w`:
/// `z^9 = 1` and `z^3 = w`.
pub proof fn lemma_z381_ninth_root_of_unity()
    ensures
        pow_mod(z381_v(), 9, q381_v()) == 1,
        pow_mod(z381_v(), 3, q381_v()) == w381_v(),
{
    let z = z381_v();
    let w = w381_v();
    let q = q381_v();
    lemma_pow_mod_cube(z, q);
    let k = 0x2fb2eab93dadc267d12aaa7b410aa515d448c343c89b9036d7f6a8eae731a57462e8191dccc67ec73f017fd8aaf6b14494a238e771febaf6bbb627a441d5e64ff9779bb40ffc1cc4c74c91f39285f0ec61d9c179b0157848de3934e27d1c6_int;
    assert(((z * z) * z) as int == (q as int) * k + (w as int));
    vstd::arithmetic::div_mod::lemma_mod_multiples_vanish(k, w as int, q as int);
    vstd::arithmetic::div_mod::lemma_small_mod(w, q);
    lemma_pow_mod_ninth(z, q);
    lemma_w381_cube_root_of_unity();
}

/// `c` is a cube root of `b / z^2`: `c^3 * z^2 = b`. No constant can
/// satisfy `c^3 * z = b` instead: `b / z` is a cubic non-residue
/// whenever `z^3 = w`, since `w = z^3` is itself a cube and `b`'s cube
/// character is primitive.
pub proof fn lemma_c381_cube_root()
    ensures
        (pow_mod(c381_v(), 3, q381_v()) * pow_mod(z381_v(), 2, q381_v())) % q381_v() == b381_v(),
{
    let c = c381_v();
    let z = z381_v();
    let q = q381_v();
    lemma_pow_mod_cube(c, q);
    lemma_pow_mod_square(z, q);
    let r1 = 0x6ea7763553b0dc3d0a8e98906bcee1c46b94376b91f96d1d76b742abd2031eebe24ec765f891ded1ea7a52df61f5d2d_nat;
    let r2 = 0x3419ab0e43ed97e0045d99fc3ebb2181e7607410c6beb05180687636a09141f9958ee5ad78514eef247d1b70fccd41c_nat;
    assert(((c * c) * c) as int == (q as int) * 0x18fc577e5c379465f103738b865ae15860883f70d1158faabde416dfa3a5b5042d51db5b3b86b6835d4116282c57afe72c39baaa74faa930bcdb1778ec0383143a482590dfcfc66c8948a873e645ebaf62799e2a9bad6361db58699375879_int + (r1 as int));
    vstd::arithmetic::div_mod::lemma_mod_multiples_vanish(0x18fc577e5c379465f103738b865ae15860883f70d1158faabde416dfa3a5b5042d51db5b3b86b6835d4116282c57afe72c39baaa74faa930bcdb1778ec0383143a482590dfcfc66c8948a873e645ebaf62799e2a9bad6361db58699375879_int, r1 as int, q as int);
    vstd::arithmetic::div_mod::lemma_small_mod(r1, q);
    assert((z * z) as int == (q as int) * 0xb2fc4856e983a83764b6f06e2eb9f06a43656193faa54e0e9e6dcc730738b37da3ce2c06153a9637565112b612fe5c_int + (r2 as int));
    vstd::arithmetic::div_mod::lemma_mod_multiples_vanish(0xb2fc4856e983a83764b6f06e2eb9f06a43656193faa54e0e9e6dcc730738b37da3ce2c06153a9637565112b612fe5c_int, r2 as int, q as int);
    vstd::arithmetic::div_mod::lemma_small_mod(r2, q);
    assert((r1 * r2) as int == (q as int) * 0xddb30ab76a693f04c34ec3a20476eccd6459e51157480c1cb66c76363fd61e8adf2324ef282bf75d0f0679b5125eb8_int + 4);
    vstd::arithmetic::div_mod::lemma_mod_multiples_vanish(0xddb30ab76a693f04c34ec3a20476eccd6459e51157480c1cb66c76363fd61e8adf2324ef282bf75d0f0679b5125eb8_int, 4, q as int);
    vstd::arithmetic::div_mod::lemma_small_mod(4, q);
}

/// The exponent is exact: `m = (q - 10) / 27`.
pub proof fn lemma_m381_exponent()
    ensures
        27 * m381_v() + 10 == q381_v(),
{
}


/// The fixed generator lies on the curve: `gen_y^2 = gen_x^3 + b`.
pub proof fn lemma_gen381_on_curve()
    ensures
        crate::hash::curve_eq(q381_v(), b381_v(), gen381_x_v(), gen381_y_v()),
{
    let q = q381_v();
    let x = gen381_x_v();
    let y = gen381_y_v();
    let k = 0x20fefb381c4d328c28cc46e90650f295ad45dc7ce1d40b2b68bd5fdf6ceadd3e17d6c452933c7dffcbe2b211e3694aa8c4f9588d53b5baff2d3767298978f8b73c44ba75f39c8f35b61cedcb0e1cb4b445c6363f1a3543909fd379a38aee212_int;
    assert(((x * x) * x + b381_v()) as int == (q as int) * k + (y * y) as int);
    vstd::arithmetic::div_mod::lemma_mod_multiples_vanish(k, (y * y) as int, q as int);
}

} // verus!

