//! Modular arithmetic over the natural numbers, and the value of a
//! big-endian byte string. These are the mathematical notions that the
//! field-element contracts are written in.
use vstd::prelude::*;

verus! {

/// Value of a big-endian byte string as a natural number.
pub open spec fn be_val(s: Seq<u8>) -> nat
    decreases s.len(),
{
    if s.len() == 0 {
        0
    } else {
        (be_val(s.drop_last()) * 256 + s.last()) as nat
    }
}

/// `b` raised to the `e`-th power, reduced modulo `q`.
pub open spec fn pow_mod(b: nat, e: nat, q: nat) -> nat {
    (vstd::arithmetic::power::pow(b as int, e) % (q as int)) as nat
}

/// The multiplicative inverse of `a` modulo `q`, where one exists.
pub open spec fn inv_mod(a: nat, q: nat) -> nat {
    choose|r: nat| r < q && #[trigger] ((a * r) % q) == 1
}

/// Appending one byte multiplies the value by 256 and adds the byte.
pub broadcast proof fn lemma_be_val_push(s: Seq<u8>, x: u8)
    ensures
        #[trigger] be_val(s.push(x)) == be_val(s) * 256 + x,
{
    assert(s.push(x).drop_last() =~= s);
}

/// A byte string's value is below 256 to the power of its length.
pub proof fn lemma_be_val_bound(s: Seq<u8>)
    ensures
        be_val(s) < vstd::arithmetic::power::pow(256, s.len()),
    decreases s.len(),
{
    reveal_with_fuel(vstd::arithmetic::power::pow, 2);
    if s.len() > 0 {
        lemma_be_val_bound(s.drop_last());
        let p = vstd::arithmetic::power::pow(256, (s.len() - 1) as nat);
        assert(be_val(s.drop_last()) * 256 <= (p - 1) * 256) by (nonlinear_arith)
            requires
                be_val(s.drop_last()) <= p - 1,
        ;
        assert(vstd::arithmetic::power::pow(256, s.len()) == 256 * p);
    }
}

/// The value of a concatenation, in terms of the two parts.
pub proof fn lemma_be_val_concat(a: Seq<u8>, b: Seq<u8>)
    ensures
        be_val(a + b) == be_val(a) * vstd::arithmetic::power::pow(256, b.len()) + be_val(b),
    decreases b.len(),
{
    reveal_with_fuel(vstd::arithmetic::power::pow, 2);
    if b.len() == 0 {
        assert(a + b =~= a);
    } else {
        let b0 = b.drop_last();
        lemma_be_val_concat(a, b0);
        assert((a + b).drop_last() =~= a + b0);
        let p = vstd::arithmetic::power::pow(256, b0.len());
        assert((be_val(a) * p + be_val(b0)) * 256 == be_val(a) * (256 * p) + be_val(b0) * 256)
            by (nonlinear_arith);
    }
}

/// Two byte strings of one length, equal before position `i` and ordered
/// at position `i`, have ordered values.
pub proof fn lemma_be_val_order(a: Seq<u8>, b: Seq<u8>, i: int)
    requires
        a.len() == b.len(),
        0 <= i < a.len(),
        forall|j: int| 0 <= j < i ==> a[j] == b[j],
        a[i] < b[i],
    ensures
        be_val(a) < be_val(b),
{
    let n = a.len() as int;
    let ah = a.subrange(0, i + 1);
    let bh = b.subrange(0, i + 1);
    let at = a.subrange(i + 1, n);
    let bt = b.subrange(i + 1, n);
    assert(ah + at =~= a);
    assert(bh + bt =~= b);
    lemma_be_val_concat(ah, at);
    lemma_be_val_concat(bh, bt);
    assert(ah.drop_last() =~= bh.drop_last());
    assert(be_val(ah) + 1 <= be_val(bh));
    let p = vstd::arithmetic::power::pow(256, at.len());
    vstd::arithmetic::power::lemma_pow_positive(256, at.len());
    lemma_be_val_bound(at);
    assert(be_val(ah) * p + p <= be_val(bh) * p) by (nonlinear_arith)
        requires
            be_val(ah) + 1 <= be_val(bh),
            p > 0,
    ;
}

/// The square of `a` modulo `q` is `pow_mod(a, 2, q)`.
pub proof fn lemma_pow_mod_square(a: nat, q: nat)
    requires
        q > 1,
    ensures
        pow_mod(a, 2, q) == (a * a) % q,
{
    reveal_with_fuel(vstd::arithmetic::power::pow, 3);
    let ai = a as int;
    assert(ai * (ai * 1) == ai * ai) by (nonlinear_arith);
}

/// The cube of `a` modulo `q` is `pow_mod(a, 3, q)`.
pub proof fn lemma_pow_mod_cube(a: nat, q: nat)
    requires
        q > 1,
    ensures
        pow_mod(a, 3, q) == ((a * a) * a) % q,
{
    reveal_with_fuel(vstd::arithmetic::power::pow, 4);
    let ai = a as int;
    assert(ai * (ai * (ai * 1)) == (ai * ai) * ai) by (nonlinear_arith);
}

/// A ninth power is the cube of the cube.
pub proof fn lemma_pow_mod_ninth(a: nat, q: nat)
    requires
        q > 1,
    ensures
        pow_mod(a, 9, q) == pow_mod(pow_mod(a, 3, q), 3, q),
{
    let ai = a as int;
    let qi = q as int;
    vstd::arithmetic::power::lemma_pow_multiplies(ai, 3, 3);
    vstd::arithmetic::power::lemma_pow_mod_noop(vstd::arithmetic::power::pow(ai, 3), 3, qi);
    vstd::arithmetic::div_mod::lemma_mod_bound(vstd::arithmetic::power::pow(ai, 3), qi);
}

/// An inverse of `a` modulo a modulus is unique below the modulus, so any
/// witness is `inv_mod(a, q)`.
pub proof fn lemma_inv_mod_unique(a: nat, r: nat, q: nat)
    requires
        q > 1,
        r < q,
        (a * r) % q == 1,
    ensures
        inv_mod(a, q) == r,
{
    let c = inv_mod(a, q);
    assert(c < q && (a * c) % q == 1) by {
        assert(r < q && (a * r) % q == 1);
    }
    let ai = a as int;
    let ci = c as int;
    let ri = r as int;
    let qi = q as int;
    vstd::arithmetic::div_mod::lemma_mul_mod_noop_general(ci, ai * ri, qi);
    assert(ci * (ai * ri) == (ai * ci) * ri) by (nonlinear_arith);
    vstd::arithmetic::div_mod::lemma_mul_mod_noop_general(ai * ci, ri, qi);
    vstd::arithmetic::div_mod::lemma_small_mod(r, q);
    vstd::arithmetic::div_mod::lemma_small_mod(c, q);
    assert(c == (ci * ((ai * ri) % qi)) % qi);
    assert((1int * ri) % qi == r);
}


/// Multiplication by an invertible residue cancels: residues with one
/// product by `c` are equal.
pub proof fn lemma_mod_cancel(a: nat, b: nat, c: nat, e: nat, q: nat)
    requires
        q > 1,
        a < q,
        b < q,
        (a * c) % q == (b * c) % q,
        (c * e) % q == 1,
    ensures
        a == b,
{
    let ai = a as int;
    let bi = b as int;
    let ci = c as int;
    let ei = e as int;
    let qi = q as int;
    assert(ai * (ci * ei) == (ai * ci) * ei) by (nonlinear_arith);
    assert(bi * (ci * ei) == (bi * ci) * ei) by (nonlinear_arith);
    vstd::arithmetic::div_mod::lemma_mul_mod_noop_general(ai, ci * ei, qi);
    vstd::arithmetic::div_mod::lemma_mul_mod_noop_general(bi, ci * ei, qi);
    vstd::arithmetic::div_mod::lemma_mul_mod_noop_general(ai * ci, ei, qi);
    vstd::arithmetic::div_mod::lemma_mul_mod_noop_general(bi * ci, ei, qi);
    vstd::arithmetic::div_mod::lemma_small_mod(a, q);
    vstd::arithmetic::div_mod::lemma_small_mod(b, q);
    vstd::arithmetic::div_mod::lemma_small_mod(1, q);
    assert(a == (ai * ((ci * ei) % qi)) % qi);
    assert(b == (bi * ((ci * ei) % qi)) % qi);
}


/// The cube of `x`, reduced modulo `q` after each multiplication.
pub open spec fn cube_mod(x: nat, q: nat) -> nat {
    (((x * x) % q) * x) % q
}

/// The stepwise-reduced cube is the cube reduced once.
pub proof fn lemma_cube_mod_unreduced(x: nat, q: nat)
    requires
        q > 1,
    ensures
        cube_mod(x, q) == ((x * x) * x) % q,
{
    vstd::arithmetic::div_mod::lemma_mul_mod_noop_general((x * x) as int, x as int, q as int);
}

/// The cube of a reduced product is the reduced product of the cubes.
pub proof fn lemma_cube_mod_product(p: nat, c: nat, q: nat)
    requires
        q > 1,
    ensures
        cube_mod((p * c) % q, q) == (cube_mod(p, q) * cube_mod(c, q)) % q,
{
    let qi = q as int;
    let pi = p as int;
    let ci = c as int;
    lemma_cube_mod_unreduced((p * c) % q, q);
    let r = ((p * c) % q) as int;
    assert(cube_mod((p * c) % q, q) == ((pi * ci) * (pi * ci) * (pi * ci)) % qi) by {
        vstd::arithmetic::div_mod::lemma_mul_mod_noop(r * r, r, qi);
        vstd::arithmetic::div_mod::lemma_mul_mod_noop(r, r, qi);
        vstd::arithmetic::div_mod::lemma_mul_mod_noop(pi * ci, pi * ci, qi);
        vstd::arithmetic::div_mod::lemma_mul_mod_noop(((pi * ci) * (pi * ci)) % qi, r, qi);
        vstd::arithmetic::div_mod::lemma_mul_mod_noop((pi * ci) * (pi * ci), pi * ci, qi);
        vstd::arithmetic::div_mod::lemma_mod_twice(pi * ci, qi);
        vstd::arithmetic::div_mod::lemma_mod_twice((pi * ci) * (pi * ci), qi);
    }
    assert((pi * ci) * (pi * ci) * (pi * ci) == ((pi * pi) * pi) * ((ci * ci) * ci))
        by (nonlinear_arith);
    lemma_cube_mod_unreduced(p, q);
    lemma_cube_mod_unreduced(c, q);
    vstd::arithmetic::div_mod::lemma_mul_mod_noop((pi * pi) * pi, (ci * ci) * ci, qi);
}


/// Multiplying by a residue whose cube is one leaves the cube unchanged.
pub proof fn lemma_cube_mod_mul_unit(p: nat, c: nat, q: nat)
    requires
        q > 1,
        cube_mod(c, q) == 1,
    ensures
        cube_mod((p * c) % q, q) == cube_mod(p, q),
{
    lemma_cube_mod_product(p, c, q);
    vstd::arithmetic::div_mod::lemma_mod_bound((((p * p) % q) * p) as int, q as int);
    vstd::arithmetic::div_mod::lemma_small_mod(cube_mod(p, q), q);
}

} // verus!
