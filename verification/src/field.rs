//! Base-field elements, held as their canonical residue in 48 big-endian
//! bytes. Equality, ordering and the zero test are decided on the bytes
//! and proved to agree with the numeric value; the modular operations
//! themselves are supplied per curve through trusted calls into the
//! arithmetic library.
use vstd::prelude::*;
use crate::arith::be_val;
use crate::arith::lemma_be_val_order;

verus! {

/// A base-field element: the canonical residue in `[0, q)`, as 48
/// big-endian bytes.
pub struct Fp {
    pub bytes: Vec<u8>,
}

impl Fp {
    /// The residue this element stands for.
    pub open spec fn val(&self) -> nat {
        be_val(self.bytes@)
    }

    /// Canonical form for the field of prime `q`: 48 bytes, value below `q`.
    pub open spec fn wf(&self, q: nat) -> bool {
        self.bytes@.len() == 48 && self.val() < q
    }
}

/// All bytes zero means value zero.
proof fn lemma_be_val_zero(s: Seq<u8>)
    requires
        forall|j: int| 0 <= j < s.len() ==> s[j] == 0,
    ensures
        be_val(s) == 0,
    decreases s.len(),
{
    if s.len() > 0 {
        lemma_be_val_zero(s.drop_last());
    }
}

/// Whether two field elements are the same residue.
pub fn fp_eq(a: &Fp, b: &Fp) -> (r: bool)
    requires
        a.bytes@.len() == b.bytes@.len(),
    ensures
        r == (a.val() == b.val()),
{
    let n = a.bytes.len();
    let mut i: usize = 0;
    while i < n
        invariant
            0 <= i <= n,
            n == a.bytes@.len(),
            n == b.bytes@.len(),
            forall|j: int| 0 <= j < i ==> a.bytes@[j] == b.bytes@[j],
        decreases n - i,
    {
        if a.bytes[i] != b.bytes[i] {
            proof {
                if a.bytes@[i as int] < b.bytes@[i as int] {
                    lemma_be_val_order(a.bytes@, b.bytes@, i as int);
                } else {
                    lemma_be_val_order(b.bytes@, a.bytes@, i as int);
                }
            }
            return false;
        }
        i = i + 1;
    }
    proof {
        assert(a.bytes@ =~= b.bytes@);
    }
    true
}

/// Whether `a` is the smaller residue, in the canonical integer order
/// on `[0, q)`.
pub fn fp_lt(a: &Fp, b: &Fp) -> (r: bool)
    requires
        a.bytes@.len() == b.bytes@.len(),
    ensures
        r == (a.val() < b.val()),
{
    let n = a.bytes.len();
    let mut i: usize = 0;
    while i < n
        invariant
            0 <= i <= n,
            n == a.bytes@.len(),
            n == b.bytes@.len(),
            forall|j: int| 0 <= j < i ==> a.bytes@[j] == b.bytes@[j],
        decreases n - i,
    {
        if a.bytes[i] < b.bytes[i] {
            proof {
                lemma_be_val_order(a.bytes@, b.bytes@, i as int);
            }
            return true;
        }
        if a.bytes[i] > b.bytes[i] {
            proof {
                lemma_be_val_order(b.bytes@, a.bytes@, i as int);
            }
            return false;
        }
        i = i + 1;
    }
    proof {
        assert(a.bytes@ =~= b.bytes@);
    }
    false
}

/// Whether `a` is the residue zero.
pub fn fp_is_zero(a: &Fp) -> (r: bool)
    ensures
        r == (a.val() == 0),
{
    let n = a.bytes.len();
    let mut i: usize = 0;
    while i < n
        invariant
            0 <= i <= n,
            n == a.bytes@.len(),
            forall|j: int| 0 <= j < i ==> a.bytes@[j] == 0,
        decreases n - i,
    {
        if a.bytes[i] != 0 {
            proof {
                let z = Seq::<u8>::new(a.bytes@.len(), |j: int| 0u8);
                lemma_be_val_zero(z);
                lemma_be_val_order(z, a.bytes@, i as int);
            }
            return false;
        }
        i = i + 1;
    }
    proof {
        lemma_be_val_zero(a.bytes@);
    }
    true
}


/// A fresh copy of a byte string.
pub fn copy_bytes(v: &Vec<u8>) -> (r: Vec<u8>)
    ensures
        r@ == v@,
{
    let mut r: Vec<u8> = Vec::new();
    let n = v.len();
    let mut i: usize = 0;
    while i < n
        invariant
            0 <= i <= n,
            n == v@.len(),
            r@ == v@.take(i as int),
        decreases n - i,
    {
        r.push(v[i]);
        proof {
            assert(r@ =~= v@.take(i + 1));
        }
        i = i + 1;
    }
    proof {
        assert(r@ =~= v@);
    }
    r
}

/// A fresh copy of a field element.
pub fn fp_copy(a: &Fp) -> (r: Fp)
    ensures
        r.bytes@ == a.bytes@,
        r.val() == a.val(),
{
    Fp { bytes: copy_bytes(&a.bytes) }
}

} // verus!
