use vstd::prelude::*;

verus! {

/// Arithmetic modulo a configured modulus; elements are `u64` residues.
#[derive(Clone, Copy, Debug, PartialEq, Eq, Structural)]
pub struct Field {
    modulus: u64,
}

/// `a + b` in the field of modulus `p`.
pub open spec fn fadd(a: int, b: int, p: int) -> int {
    (a + b) % p
}

/// `a - b` in the field of modulus `p`.
pub open spec fn fsub(a: int, b: int, p: int) -> int {
    (a - b) % p
}

/// `a * b` in the field of modulus `p`.
pub open spec fn fmul(a: int, b: int, p: int) -> int {
    (a * b) % p
}

impl Field {
    pub closed spec fn modulus_spec(&self) -> int {
        self.modulus as int
    }

    /// The modulus holds at least the two distinct elements zero and one.
    pub open spec fn wf(&self) -> bool {
        self.modulus_spec() >= 2
    }

    /// Whether `a` is a canonical residue.
    pub open spec fn contains(&self, a: int) -> bool {
        0 <= a < self.modulus_spec()
    }

    pub fn new(modulus: u64) -> (r: Field)
        requires
            modulus >= 2,
        ensures
            r.wf(),
            r.modulus_spec() == modulus,
    {
        Field { modulus }
    }

    pub fn modulus(&self) -> (r: u64)
        ensures
            r == self.modulus_spec(),
    {
        self.modulus
    }

    pub fn zero(&self) -> (r: u64)
        requires
            self.wf(),
        ensures
            r == 0,
            self.contains(r as int),
    {
        0
    }

    pub fn one(&self) -> (r: u64)
        requires
            self.wf(),
        ensures
            r == 1,
            self.contains(r as int),
    {
        1
    }

    pub fn add(&self, a: u64, b: u64) -> (r: u64)
        requires
            self.wf(),
            self.contains(a as int),
            self.contains(b as int),
        ensures
            r == fadd(a as int, b as int, self.modulus_spec()),
            self.contains(r as int),
    {
        ((a as u128 + b as u128) % (self.modulus as u128)) as u64
    }

    pub fn sub(&self, a: u64, b: u64) -> (r: u64)
        requires
            self.wf(),
            self.contains(a as int),
            self.contains(b as int),
        ensures
            r == fsub(a as int, b as int, self.modulus_spec()),
            self.contains(r as int),
    {
        let p = self.modulus as u128;
        let s = (a as u128 + p - b as u128) % p;
        proof {
            vstd::arithmetic::div_mod::lemma_mod_add_multiples_vanish(a - b, self.modulus as int);
        }
        s as u64
    }

    pub fn mul(&self, a: u64, b: u64) -> (r: u64)
        requires
            self.wf(),
            self.contains(a as int),
            self.contains(b as int),
        ensures
            r == fmul(a as int, b as int, self.modulus_spec()),
            self.contains(r as int),
    {
        proof {
            vstd::arithmetic::mul::lemma_mul_upper_bound(
                a as int,
                u64::MAX as int,
                b as int,
                u64::MAX as int,
            );
            assert(0xffff_ffff_ffff_ffffu128 * 0xffff_ffff_ffff_ffffu128 <= u128::MAX);
        }
        let prod = (a as u128) * (b as u128);
        (prod % (self.modulus as u128)) as u64
    }
}

} // verus!
