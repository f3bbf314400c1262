//! Polynomials with coefficients in GF(2^8).

use vstd::prelude::*;
use crate::gf256::{GF256, gf_add, gf_mul, lemma_mul_zero};
use crate::rng::random_byte;

verus! {

/// The value at `x` of the polynomial whose coefficient sequence is
/// `coeffs`, constant term first: zero for an empty sequence, and
/// otherwise the constant term plus `x` times the value of the
/// polynomial formed by the remaining coefficients.
pub open spec fn poly_eval(coeffs: Seq<u8>, x: u8) -> u8
    decreases coeffs.len(),
{
    if coeffs.len() == 0 {
        0
    } else {
        gf_add(gf_mul(poly_eval(coeffs.subrange(1, coeffs.len() as int), x), x), coeffs[0])
    }
}

/// The value of a nonempty polynomial at zero is its constant term.
pub proof fn lemma_eval_at_zero(coeffs: Seq<u8>)
    requires
        coeffs.len() > 0,
    ensures
        poly_eval(coeffs, 0) == coeffs[0],
{
    lemma_mul_zero(poly_eval(coeffs.subrange(1, coeffs.len() as int), 0));
    let c = coeffs[0];
    assert(0u8 ^ c == c) by (bit_vector);
}

/// A single-variable polynomial over GF(2^8). The first coefficient is
/// the intercept: by `lemma_eval_at_zero`, the polynomial's value at
/// zero.
pub struct Polynomial {
    /// Coefficients of the polynomial, constant term first.
    pub coefficients: Vec<u8>,
}

impl Polynomial {
    /// Creates a polynomial of the given degree whose constant term is
    /// `intercept` and whose `degree` remaining coefficients are drawn
    /// independently from the given random source.
    pub fn new(intercept: u8, degree: usize, rng: &mut rand::rngs::ThreadRng) -> (p: Polynomial)
        requires
            degree < usize::MAX,
        ensures
            p.coefficients@.len() == degree + 1,
            p.coefficients@[0] == intercept,
    {
        let mut coefficients: Vec<u8> = Vec::new();
        coefficients.push(intercept);
        let mut k: usize = 0;
        while k < degree
            invariant
                k <= degree,
                degree < usize::MAX,
                coefficients@.len() == k + 1,
                coefficients@[0] == intercept,
            decreases degree - k,
        {
            let b = random_byte(rng);
            coefficients.push(b);
            k = k + 1;
        }
        Polynomial { coefficients }
    }

    /// Evaluates the polynomial at `x` by Horner's method, folding the
    /// coefficients from the highest degree down to the constant term.
    pub fn evaluate(&self, x: u8) -> (r: u8)
        ensures
            r == poly_eval(self.coefficients@, x),
    {
        let len = self.coefficients.len();
        let mut acc: u8 = 0;
        let mut i: usize = len;
        while i > 0
            invariant
                i <= len,
                len == self.coefficients@.len(),
                acc == poly_eval(self.coefficients@.subrange(i as int, len as int), x),
            decreases i,
        {
            i = i - 1;
            acc = GF256::add(GF256::mult(acc, x), self.coefficients[i]);
            proof {
                let s = self.coefficients@;
                assert(s.subrange(i as int, len as int).subrange(
                    1,
                    s.subrange(i as int, len as int).len() as int,
                ) =~= s.subrange(i + 1, len as int));
            }
        }
        proof {
            assert(self.coefficients@.subrange(0, len as int) =~= self.coefficients@);
        }
        acc
    }
}

} // verus!
