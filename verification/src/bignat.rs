//! An arbitrary-precision natural number, kept as its limbs and multiplied
//! by malachite.

use crate::numeric::NumericAccumulator;
use malachite::Natural;
use vstd::prelude::*;

verus! {

/// The integer that a sequence of 64-bit limbs stands for, least
/// significant limb first. The empty sequence stands for zero.
pub open spec fn limbs_value(limbs: Seq<u64>) -> int
    decreases limbs.len(),
{
    if limbs.len() == 0 {
        0
    } else {
        limbs[0] + 0x1_0000_0000_0000_0000 * limbs_value(limbs.drop_first())
    }
}

/// The limbs of the product of the two numbers whose limbs are `a` and `b`.
///
/// Trusted: the body turns each limb vector into a malachite `Natural` with
/// `Natural::from_owned_limbs_asc`, multiplies the two with `*`, and takes
/// the limbs of the result with `Natural::into_limbs_asc`. The contract
/// claims what malachite documents of the three: limbs are read and written
/// least significant first, 64 bits each, and `*` gives the product.
#[verifier::external_body]
fn multiply_limbs(a: Vec<u64>, b: Vec<u64>) -> (product: Vec<u64>)
    ensures
        limbs_value(product@) == limbs_value(a@) * limbs_value(b@),
{
    (Natural::from_owned_limbs_asc(a) * Natural::from_owned_limbs_asc(b)).into_limbs_asc()
}

/// A natural number of any size.
pub struct BigNat {
    limbs: Vec<u64>,
}

impl View for BigNat {
    type V = Seq<u64>;

    /// The limbs, least significant first.
    closed spec fn view(&self) -> Seq<u64> {
        self.limbs@
    }
}

impl BigNat {
    /// The number with the given limbs, least significant first.
    pub fn from_limbs(limbs: Vec<u64>) -> (number: Self)
        ensures
            number@ == limbs@,
    {
        BigNat { limbs }
    }

    /// The limbs of the number, least significant first.
    pub fn into_limbs(self) -> (limbs: Vec<u64>)
        ensures
            limbs@ == self@,
    {
        self.limbs
    }
}

impl NumericAccumulator for BigNat {
    open spec fn value(&self) -> int {
        limbs_value(self@)
    }

    /// Every integer is held as it is.
    open spec fn represent(x: int) -> int {
        x
    }

    proof fn lemma_represent_product(a: int, b: int) {
    }

    proof fn lemma_value_represented(x: &Self) {
    }

    fn from_u64(x: u64) -> (r: Self) {
        let mut limbs: Vec<u64> = Vec::new();
        if x != 0 {
            limbs.push(x);
        }
        proof {
            reveal_with_fuel(limbs_value, 2);
            if x != 0 {
                assert(limbs@.drop_first().len() == 0);
                assert(0x1_0000_0000_0000_0000 * 0 == 0);
            }
        }
        BigNat { limbs }
    }

    fn multiply(self, rhs: Self) -> (r: Self) {
        BigNat { limbs: multiply_limbs(self.limbs, rhs.limbs) }
    }
}

} // verus!
