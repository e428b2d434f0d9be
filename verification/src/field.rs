//! The field-element interface the engine is generic over, and one concrete
//! prime field used by the example circuit and the tests.
//!
//! The engine only ever adds, negates and multiplies field elements and
//! compares them for equality; everything it promises about a circuit is
//! stated over the `*_spec` functions below, so any type that implements
//! `FieldOps` (and proves the accompanying laws) can be plugged in.

use vstd::prelude::*;

verus! {

use vstd::arithmetic::div_mod::lemma_small_mod;
use vstd::arithmetic::div_mod::lemma_mod_bound;

/// An element of a finite field, as the engine sees it: addition,
/// multiplication, additive inverse, the two identities, and equality.
///
/// The `*_spec` functions are the mathematical model; the executable
/// methods must agree with them.  The laws are the fragment of the field
/// axioms the engine's proofs rely on; they are only required to hold of
/// well-formed (`wf`) elements, which every constructor and operation
/// produces.
pub trait FieldOps: Sized + Copy {
    /// Well-formedness: the element is a canonical representative.
    spec fn wf(self) -> bool;

    spec fn add_spec(self, other: Self) -> Self;

    spec fn mul_spec(self, other: Self) -> Self;

    spec fn neg_spec(self) -> Self;

    spec fn zero_spec() -> Self;

    spec fn one_spec() -> Self;

    /// The additive identity is well-formed.
    proof fn lemma_zero_wf()
        ensures
            Self::zero_spec().wf(),
    ;

    /// The multiplicative identity is well-formed.
    proof fn lemma_one_wf()
        ensures
            Self::one_spec().wf(),
    ;

    /// Addition of well-formed elements is well-formed.
    proof fn lemma_add_wf(self, other: Self)
        requires
            self.wf(),
            other.wf(),
        ensures
            self.add_spec(other).wf(),
    ;

    /// Negation of a well-formed element is well-formed.
    proof fn lemma_neg_wf(self)
        requires
            self.wf(),
        ensures
            self.neg_spec().wf(),
    ;

    /// A well-formed element plus its additive inverse is zero.
    proof fn lemma_add_neg_zero(self)
        requires
            self.wf(),
        ensures
            self.add_spec(self.neg_spec()) == Self::zero_spec(),
    ;

    /// One is a left identity for multiplication on well-formed elements.
    proof fn lemma_one_mul(self)
        requires
            self.wf(),
        ensures
            Self::one_spec().mul_spec(self) == self,
    ;

    /// Additive cancellation: when adding the inverse of `other` gives
    /// zero, the two well-formed elements are equal.
    proof fn lemma_add_neg_cancel(self, other: Self)
        requires
            self.wf(),
            other.wf(),
            self.add_spec(other.neg_spec()) == Self::zero_spec(),
        ensures
            self == other,
    ;

    fn add(self, other: Self) -> (r: Self)
        ensures
            r == self.add_spec(other),
    ;

    fn mul(self, other: Self) -> (r: Self)
        ensures
            r == self.mul_spec(other),
    ;

    fn neg(self) -> (r: Self)
        ensures
            r == self.neg_spec(),
    ;

    fn zero() -> (r: Self)
        ensures
            r == Self::zero_spec(),
    ;

    fn one() -> (r: Self)
        ensures
            r == Self::one_spec(),
    ;

    fn eq_elem(&self, other: &Self) -> (r: bool)
        ensures
            r == (*self == *other),
    ;
}

/// The Mersenne prime 2^61 - 1, the modulus of `Fp`.
pub const FP_MODULUS: u64 = 2305843009213693951;

/// An element of the prime field of order `FP_MODULUS`, stored as its
/// canonical representative in `0 .. FP_MODULUS`.
#[derive(Clone, Copy, Debug, PartialEq, Eq, Structural)]
pub struct Fp {
    pub v: u64,
}

impl Fp {
    /// Reduces an arbitrary machine integer into the field.
    pub fn from_u64(x: u64) -> (r: Fp)
        ensures
            r.v == x as int % FP_MODULUS as int,
            r.wf(),
    {
        proof {
            lemma_mod_bound(x as int, FP_MODULUS as int);
        }
        Fp { v: x % FP_MODULUS }
    }
}

impl FieldOps for Fp {
    open spec fn wf(self) -> bool {
        self.v < FP_MODULUS
    }

    open spec fn add_spec(self, other: Self) -> Self {
        Fp { v: ((self.v + other.v) % (FP_MODULUS as int)) as u64 }
    }

    open spec fn mul_spec(self, other: Self) -> Self {
        Fp { v: ((self.v * other.v) % (FP_MODULUS as int)) as u64 }
    }

    open spec fn neg_spec(self) -> Self {
        Fp { v: ((FP_MODULUS as int - self.v as int % FP_MODULUS as int) % FP_MODULUS as int) as u64 }
    }

    open spec fn zero_spec() -> Self {
        Fp { v: 0 }
    }

    open spec fn one_spec() -> Self {
        Fp { v: 1 }
    }

    proof fn lemma_zero_wf() {
    }

    proof fn lemma_one_wf() {
    }

    proof fn lemma_add_wf(self, other: Self) {
        lemma_mod_bound(self.v + other.v, FP_MODULUS as int);
    }

    proof fn lemma_neg_wf(self) {
        lemma_mod_bound(FP_MODULUS as int - self.v as int % FP_MODULUS as int, FP_MODULUS as int);
    }

    proof fn lemma_add_neg_zero(self) {
        lemma_small_mod(self.v as nat, FP_MODULUS as nat);
        if self.v == 0 {
            lemma_small_mod(0, FP_MODULUS as nat);
        } else {
            assert((FP_MODULUS as int - self.v as int) % FP_MODULUS as int
                == FP_MODULUS - self.v) by {
                lemma_small_mod((FP_MODULUS - self.v) as nat, FP_MODULUS as nat);
            };
            assert((self.v + (FP_MODULUS - self.v)) % (FP_MODULUS as int) == 0) by {
                vstd::arithmetic::div_mod::lemma_mod_self_0(FP_MODULUS as int);
            };
        }
    }

    proof fn lemma_one_mul(self) {
        lemma_small_mod(self.v as nat, FP_MODULUS as nat);
    }

    proof fn lemma_add_neg_cancel(self, other: Self) {
        let p = FP_MODULUS as int;
        lemma_small_mod(other.v as nat, FP_MODULUS as nat);
        if other.v == 0 {
            vstd::arithmetic::div_mod::lemma_mod_self_0(p);
            lemma_small_mod(self.v as nat, FP_MODULUS as nat);
        } else {
            lemma_small_mod((FP_MODULUS - other.v) as nat, FP_MODULUS as nat);
            let s = self.v + FP_MODULUS - other.v;
            if s < p {
                lemma_small_mod(s as nat, FP_MODULUS as nat);
            } else {
                vstd::arithmetic::div_mod::lemma_mod_multiples_vanish(1, s - p, p);
                lemma_small_mod((s - p) as nat, FP_MODULUS as nat);
            }
        }
    }

    fn add(self, other: Self) -> (r: Self) {
        let s: u128 = self.v as u128 + other.v as u128;
        proof {
            lemma_mod_bound(s as int, FP_MODULUS as int);
        }
        Fp { v: (s % (FP_MODULUS as u128)) as u64 }
    }

    fn mul(self, other: Self) -> (r: Self) {
        proof {
            assert(self.v as int * other.v as int <= (u64::MAX as int) * (u64::MAX as int))
                by (nonlinear_arith)
                requires
                    self.v <= u64::MAX,
                    other.v <= u64::MAX,
            ;
            lemma_mod_bound(self.v as int * other.v as int, FP_MODULUS as int);
        }
        let p: u128 = self.v as u128 * other.v as u128;
        Fp { v: (p % (FP_MODULUS as u128)) as u64 }
    }

    fn neg(self) -> (r: Self) {
        let m: u64 = self.v % FP_MODULUS;
        proof {
            lemma_mod_bound(self.v as int, FP_MODULUS as int);
            if m == 0 {
                vstd::arithmetic::div_mod::lemma_mod_self_0(FP_MODULUS as int);
            } else {
                lemma_small_mod((FP_MODULUS - m) as nat, FP_MODULUS as nat);
            }
        }
        if m == 0 {
            Fp { v: 0 }
        } else {
            Fp { v: FP_MODULUS - m }
        }
    }

    fn zero() -> (r: Self) {
        Fp { v: 0 }
    }

    fn one() -> (r: Self) {
        Fp { v: 1 }
    }

    fn eq_elem(&self, other: &Self) -> (r: bool) {
        self.v == other.v
    }
}

} // verus!
