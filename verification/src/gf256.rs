//! Arithmetic in the finite field GF(2^8).
//!
//! A byte is read as a polynomial over GF(2) of degree at most 7;
//! addition is XOR, and multiplication is carry-less polynomial
//! multiplication reduced modulo x^8 + x^4 + x^3 + x + 1 (0x11b).

use vstd::prelude::*;

verus! {

/// Addition in GF(2^8): bitwise XOR of the two byte representations.
/// It is its own inverse, and 0 is the identity.
pub open spec fn gf_add(a: u8, b: u8) -> u8 {
    a ^ b
}

/// Carry-less product of two bytes read as polynomials over GF(2):
/// the XOR of `a` shifted left by each set bit position of `b`.
/// The product has degree at most 14 and fits in 15 bits.
pub open spec fn gf_clmul(a: u8, b: u8) -> u16 {
    (if b & 0x01 != 0 { a as u16 } else { 0 })
        ^ (if b & 0x02 != 0 { (a as u16) << 1 } else { 0 })
        ^ (if b & 0x04 != 0 { (a as u16) << 2 } else { 0 })
        ^ (if b & 0x08 != 0 { (a as u16) << 3 } else { 0 })
        ^ (if b & 0x10 != 0 { (a as u16) << 4 } else { 0 })
        ^ (if b & 0x20 != 0 { (a as u16) << 5 } else { 0 })
        ^ (if b & 0x40 != 0 { (a as u16) << 6 } else { 0 })
        ^ (if b & 0x80 != 0 { (a as u16) << 7 } else { 0 })
}

/// Reduction of a polynomial of degree at most 14 modulo
/// x^8 + x^4 + x^3 + x + 1: every bit k >= 8 of `p` is replaced by the
/// constant residue x^k mod 0x11b (0x1b for x^8, doubled and reduced
/// again for each further power).
pub open spec fn gf_reduce(p: u16) -> u8 {
    ((p & 0x00ff)
        ^ (if p & 0x0100 != 0 { 0x1b } else { 0 })
        ^ (if p & 0x0200 != 0 { 0x36 } else { 0 })
        ^ (if p & 0x0400 != 0 { 0x6c } else { 0 })
        ^ (if p & 0x0800 != 0 { 0xd8 } else { 0 })
        ^ (if p & 0x1000 != 0 { 0xab } else { 0 })
        ^ (if p & 0x2000 != 0 { 0x4d } else { 0 })
        ^ (if p & 0x4000 != 0 { 0x9a } else { 0 })) as u8
}

/// Multiplication in GF(2^8): the carry-less product reduced modulo
/// x^8 + x^4 + x^3 + x + 1. 1 is the identity and 0 is absorbing.
pub open spec fn gf_mul(a: u8, b: u8) -> u8 {
    gf_reduce(gf_clmul(a, b))
}

/// Multiplication of a field element by x: one left shift followed by
/// one reduction step.
pub open spec fn gf_xtime(a: u8) -> u8 {
    gf_reduce((a as u16) << 1)
}

/// The multiplicative inverse of a nonzero field element: a^254,
/// computed by square and multiply. The multiplicative group of
/// GF(2^8) has order 255, so a^254 * a = a^255 = 1.
pub open spec fn gf_inverse(a: u8) -> u8 {
    let a2 = gf_mul(a, a);
    let a3 = gf_mul(a, a2);
    let a6 = gf_mul(a3, a3);
    let a12 = gf_mul(a6, a6);
    let a15 = gf_mul(a12, a3);
    let a24 = gf_mul(a12, a12);
    let a48 = gf_mul(a24, a24);
    let a63 = gf_mul(a48, a15);
    let a126 = gf_mul(a63, a63);
    let a127 = gf_mul(a, a126);
    gf_mul(a127, a127)
}

/// Division in GF(2^8): zero divided by anything is zero, and otherwise
/// multiplication by the divisor's inverse. Meaningful only for a
/// nonzero divisor.
pub open spec fn gf_div(a: u8, b: u8) -> u8 {
    if a == 0 {
        0
    } else {
        gf_mul(a, gf_inverse(b))
    }
}

/// The field GF(2^8); its elements are bytes and its operations are the
/// associated functions below.
pub struct GF256;

impl GF256 {
    /// Adds two elements of GF(2^8) by XOR of their representations.
    pub fn add(a: u8, b: u8) -> (r: u8)
        ensures
            r == gf_add(a, b),
    {
        a ^ b
    }

    /// Multiplies two elements of GF(2^8) by peasant multiplication:
    /// the partial products are accumulated while the first factor is
    /// repeatedly doubled (with reduction) and the second halved.
    pub fn mult(a: u8, b: u8) -> (r: u8)
        ensures
            r == gf_mul(a, b),
    {
        let mut x: u8 = a;
        let mut y: u8 = b;
        let mut result: u8 = 0;
        proof {
            let m = gf_mul(a, b);
            assert(0u8 ^ m == m) by (bit_vector);
        }
        while y > 0
            invariant
                result ^ gf_mul(x, y) == gf_mul(a, b),
            decreases y,
        {
            let ghost x0 = x;
            let ghost y0 = y;
            let ghost r0 = result;
            if y & 1 != 0 {
                result = result ^ x;
            }
            if x & 0x80 != 0 {
                x = (x << 1) ^ 0x1B;
            } else {
                x = x << 1;
            }
            y = y >> 1;
            proof {
                assert(y0 > 0 ==> (y0 >> 1) < y0) by (bit_vector);
                assert(result ^ gf_mul(x, y) == r0 ^ gf_mul(x0, y0)) by (bit_vector)
                    requires
                        result == (if y0 & 1 != 0 { r0 ^ x0 } else { r0 }),
                        x == (if x0 & 0x80 != 0 { (x0 << 1) ^ 0x1B } else { x0 << 1 }),
                        y == y0 >> 1,
                ;
            }
        }
        proof {
            assert(gf_mul(x, 0) == 0) by (bit_vector);
            assert(result ^ 0 == result) by (bit_vector);
        }
        result
    }

    /// Computes the multiplicative inverse of a nonzero element of
    /// GF(2^8) as a^254, by a fixed chain of squarings and
    /// multiplications.
    pub fn inverse(a: u8) -> (r: u8)
        requires
            a != 0,
        ensures
            r == gf_inverse(a),
            gf_mul(a, r) == 1,
    {
        let mut b = GF256::mult(a, a);
        let mut c = GF256::mult(a, b);
        b = GF256::mult(c, c);
        b = GF256::mult(b, b);
        c = GF256::mult(b, c);
        b = GF256::mult(b, b);
        b = GF256::mult(b, b);
        b = GF256::mult(b, c);
        b = GF256::mult(b, b);
        b = GF256::mult(a, b);
        let r = GF256::mult(b, b);
        proof {
            lemma_mul_inverse(a);
        }
        r
    }

    /// Divides one element of GF(2^8) by a nonzero one: zero stays
    /// zero, and any other dividend is multiplied by the divisor's
    /// inverse.
    pub fn div(a: u8, b: u8) -> (r: u8)
        requires
            b != 0,
        ensures
            r == gf_div(a, b),
            gf_mul(r, b) == a,
    {
        let ret = GF256::mult(a, GF256::inverse(b));
        let r = if a == 0 {
            0
        } else {
            ret
        };
        proof {
            lemma_div_mul(a, b);
        }
        r
    }
}

/// Every field element is its own additive inverse: adding an element
/// to itself gives zero.
pub proof fn lemma_add_self_zero(a: u8)
    ensures
        gf_add(a, a) == 0,
{
    assert(a ^ a == 0) by (bit_vector);
}

/// Zero is the absorbing element of multiplication.
pub proof fn lemma_mul_zero(a: u8)
    ensures
        gf_mul(a, 0) == 0,
        gf_mul(0, a) == 0,
{
    assert(gf_mul(a, 0) == 0 && gf_mul(0u8, a) == 0) by (bit_vector);
}

/// One is the multiplicative identity.
pub proof fn lemma_mul_one(a: u8)
    ensures
        gf_mul(a, 1) == a,
        gf_mul(1, a) == a,
{
    assert(gf_mul(a, 1) == a && gf_mul(1u8, a) == a) by (bit_vector);
}

/// Multiplication in GF(2^8) is commutative.
pub proof fn lemma_mul_comm(a: u8, b: u8)
    ensures
        gf_mul(a, b) == gf_mul(b, a),
{
    assert(gf_mul(a, b) == gf_mul(b, a)) by (bit_vector);
}

/// Multiplication distributes over addition.
#[verifier::rlimit(100)]
#[verifier::spinoff_prover]
pub proof fn lemma_mul_distrib(a: u8, b: u8, c: u8)
    ensures
        gf_mul(gf_add(a, b), c) == gf_add(gf_mul(a, c), gf_mul(b, c)),
{
    let pa: u16 = gf_clmul(a, c);
    let ma: u8 = gf_reduce(pa);
    let pb: u16 = gf_clmul(b, c);
    let mb: u8 = gf_reduce(pb);
    let ab: u8 = a ^ b;
    let pab: u16 = gf_clmul(ab, c);
    let mab: u8 = gf_reduce(pab);
    assert(mab == gf_mul(gf_add(a, b), c));
    assert(mab == (ma ^ mb)) by (bit_vector)
        requires
            pa == gf_clmul(a, c),
            ma == gf_reduce(pa),
            pb == gf_clmul(b, c),
            mb == gf_reduce(pb),
            ab == a ^ b,
            pab == gf_clmul(ab, c),
            mab == gf_reduce(pab),
    ;
}

/// Multiplication distributes over addition in the second factor too.
pub proof fn lemma_mul_distrib_right(a: u8, b: u8, c: u8)
    ensures
        gf_mul(a, gf_add(b, c)) == gf_add(gf_mul(a, b), gf_mul(a, c)),
{
    lemma_mul_comm(a, gf_add(b, c));
    lemma_mul_distrib(b, c, a);
    lemma_mul_comm(b, a);
    lemma_mul_comm(c, a);
}

/// Peasant-multiplication step: a product splits into the second
/// factor's low bit contribution and the product of the doubled first
/// factor with the halved second factor.
proof fn lemma_mul_step(a: u8, b: u8)
    ensures
        gf_mul(a, b) == ((if b & 1 != 0 {
            a
        } else {
            0u8
        }) ^ gf_mul(gf_xtime(a), b >> 1)),
{
    let m: u8 = gf_mul(a, b);
    let xa: u8 = gf_xtime(a);
    let b2: u8 = b >> 1;
    let m2: u8 = gf_mul(xa, b2);
    assert(m == ((if b & 1 != 0 {
        a
    } else {
        0u8
    }) ^ m2)) by (bit_vector)
        requires
            m == gf_reduce(gf_clmul(a, b)),
            xa == gf_reduce((a as u16) << 1),
            b2 == b >> 1,
            m2 == gf_reduce(gf_clmul(xa, b2)),
    ;
}

/// Doubling commutes with multiplication: (x a) b == x (a b).
proof fn lemma_xtime_mul(a: u8, b: u8)
    ensures
        gf_mul(gf_xtime(a), b) == gf_xtime(gf_mul(a, b)),
{
    let m: u8 = gf_mul(a, b);
    let xa: u8 = gf_xtime(a);
    let lhs: u8 = gf_mul(xa, b);
    let rhs: u8 = gf_xtime(m);
    assert(lhs == rhs) by (bit_vector)
        requires
            m == gf_reduce(gf_clmul(a, b)),
            xa == gf_reduce((a as u16) << 1),
            lhs == gf_reduce(gf_clmul(xa, b)),
            rhs == gf_reduce((m as u16) << 1),
    ;
}

/// Multiplication is associative: by induction over the bits of the
/// last factor, peeling one peasant-multiplication step at a time.
pub proof fn lemma_mul_assoc(a: u8, b: u8, c: u8)
    ensures
        gf_mul(gf_mul(a, b), c) == gf_mul(a, gf_mul(b, c)),
    decreases c,
{
    let m = gf_mul(a, b);
    if c == 0 {
        lemma_mul_zero(m);
        lemma_mul_zero(b);
        lemma_mul_zero(a);
    } else {
        assert(c != 0 ==> (c >> 1) < c) by (bit_vector);
        lemma_mul_step(m, c);
        lemma_mul_step(b, c);
        let u: u8 = if c & 1 != 0 {
            b
        } else {
            0
        };
        let v = gf_mul(gf_xtime(b), c >> 1);
        assert(gf_mul(b, c) == (u ^ v));
        lemma_mul_distrib_right(a, u, v);
        lemma_mul_zero(a);
        lemma_mul_assoc(a, gf_xtime(b), c >> 1);
        lemma_mul_comm(a, gf_xtime(b));
        lemma_xtime_mul(b, a);
        lemma_mul_comm(b, a);
        assert(gf_mul(a, gf_xtime(b)) == gf_xtime(m));
        let w: u8 = if c & 1 != 0 {
            m
        } else {
            0
        };
        assert(gf_mul(a, u) == w);
        assert(gf_mul(a, gf_mul(b, c)) == (w ^ gf_mul(gf_xtime(m), c >> 1)));
        assert(gf_mul(m, c) == (w ^ gf_mul(gf_xtime(m), c >> 1)));
    }
}

/// A nonzero element multiplied by its inverse gives one.
pub proof fn lemma_mul_inverse(a: u8)
    requires
        a != 0,
    ensures
        gf_mul(a, gf_inverse(a)) == 1,
{
    let p1: u16 = gf_clmul(a, a);
    let m1: u8 = gf_reduce(p1);
    let p2: u16 = gf_clmul(a, m1);
    let m2: u8 = gf_reduce(p2);
    let p3: u16 = gf_clmul(m2, m2);
    let m3: u8 = gf_reduce(p3);
    let p4: u16 = gf_clmul(m3, m3);
    let m4: u8 = gf_reduce(p4);
    let p5: u16 = gf_clmul(m4, m2);
    let m5: u8 = gf_reduce(p5);
    let p6: u16 = gf_clmul(m4, m4);
    let m6: u8 = gf_reduce(p6);
    let p7: u16 = gf_clmul(m6, m6);
    let m7: u8 = gf_reduce(p7);
    let p8: u16 = gf_clmul(m7, m5);
    let m8: u8 = gf_reduce(p8);
    let p9: u16 = gf_clmul(m8, m8);
    let m9: u8 = gf_reduce(p9);
    let p10: u16 = gf_clmul(a, m9);
    let m10: u8 = gf_reduce(p10);
    let p11: u16 = gf_clmul(m10, m10);
    let m11: u8 = gf_reduce(p11);
    let p12: u16 = gf_clmul(a, m11);
    let m12: u8 = gf_reduce(p12);
    assert(m11 == gf_inverse(a));
    assert(m12 == gf_mul(a, gf_inverse(a)));
    assert(a != 0 ==> m12 == 1) by (bit_vector)
        requires
            p1 == gf_clmul(a, a),
            m1 == gf_reduce(p1),
            p2 == gf_clmul(a, m1),
            m2 == gf_reduce(p2),
            p3 == gf_clmul(m2, m2),
            m3 == gf_reduce(p3),
            p4 == gf_clmul(m3, m3),
            m4 == gf_reduce(p4),
            p5 == gf_clmul(m4, m2),
            m5 == gf_reduce(p5),
            p6 == gf_clmul(m4, m4),
            m6 == gf_reduce(p6),
            p7 == gf_clmul(m6, m6),
            m7 == gf_reduce(p7),
            p8 == gf_clmul(m7, m5),
            m8 == gf_reduce(p8),
            p9 == gf_clmul(m8, m8),
            m9 == gf_reduce(p9),
            p10 == gf_clmul(a, m9),
            m10 == gf_reduce(p10),
            p11 == gf_clmul(m10, m10),
            m11 == gf_reduce(p11),
            p12 == gf_clmul(a, m11),
            m12 == gf_reduce(p12),
    ;
}

/// Dividing by a nonzero element and multiplying by it again returns
/// the dividend.
#[verifier::rlimit(100)]
#[verifier::spinoff_prover]
pub proof fn lemma_div_mul(a: u8, b: u8)
    requires
        b != 0,
    ensures
        gf_mul(gf_div(a, b), b) == a,
{
    let p1: u16 = gf_clmul(b, b);
    let m1: u8 = gf_reduce(p1);
    let p2: u16 = gf_clmul(b, m1);
    let m2: u8 = gf_reduce(p2);
    let p3: u16 = gf_clmul(m2, m2);
    let m3: u8 = gf_reduce(p3);
    let p4: u16 = gf_clmul(m3, m3);
    let m4: u8 = gf_reduce(p4);
    let p5: u16 = gf_clmul(m4, m2);
    let m5: u8 = gf_reduce(p5);
    let p6: u16 = gf_clmul(m4, m4);
    let m6: u8 = gf_reduce(p6);
    let p7: u16 = gf_clmul(m6, m6);
    let m7: u8 = gf_reduce(p7);
    let p8: u16 = gf_clmul(m7, m5);
    let m8: u8 = gf_reduce(p8);
    let p9: u16 = gf_clmul(m8, m8);
    let m9: u8 = gf_reduce(p9);
    let p10: u16 = gf_clmul(b, m9);
    let m10: u8 = gf_reduce(p10);
    let p11: u16 = gf_clmul(m10, m10);
    let m11: u8 = gf_reduce(p11);
    assert(m11 == gf_inverse(b));
    let p12: u16 = gf_clmul(a, m11);
    let m12: u8 = gf_reduce(p12);
    let q: u8 = if a == 0 {
        0
    } else {
        m12
    };
    assert(q == gf_div(a, b));
    let p13: u16 = gf_clmul(q, b);
    let m13: u8 = gf_reduce(p13);
    assert(m13 == gf_mul(gf_div(a, b), b));
    assert(b != 0 ==> m13 == a) by (bit_vector)
        requires
            p1 == gf_clmul(b, b),
            m1 == gf_reduce(p1),
            p2 == gf_clmul(b, m1),
            m2 == gf_reduce(p2),
            p3 == gf_clmul(m2, m2),
            m3 == gf_reduce(p3),
            p4 == gf_clmul(m3, m3),
            m4 == gf_reduce(p4),
            p5 == gf_clmul(m4, m2),
            m5 == gf_reduce(p5),
            p6 == gf_clmul(m4, m4),
            m6 == gf_reduce(p6),
            p7 == gf_clmul(m6, m6),
            m7 == gf_reduce(p7),
            p8 == gf_clmul(m7, m5),
            m8 == gf_reduce(p8),
            p9 == gf_clmul(m8, m8),
            m9 == gf_reduce(p9),
            p10 == gf_clmul(b, m9),
            m10 == gf_reduce(p10),
            p11 == gf_clmul(m10, m10),
            m11 == gf_reduce(p11),
            p12 == gf_clmul(a, m11),
            m12 == gf_reduce(p12),
            q == (if a == 0 { 0u8 } else { m12 }),
            p13 == gf_clmul(q, b),
            m13 == gf_reduce(p13),
    ;
}

} // verus!
