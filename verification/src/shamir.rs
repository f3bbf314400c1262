//! Splitting a secret into shares and recombining them.
//!
//! Each byte of the secret is protected by an independent random
//! polynomial whose intercept is that byte; a share holds the values of
//! all those polynomials at one nonzero field point, followed by that
//! point. Any `threshold` shares determine the secret by Lagrange
//! interpolation at zero.

use vstd::prelude::*;
use crate::gf256::{GF256, gf_add, gf_mul, gf_div, gf_inverse, lemma_mul_one, lemma_mul_zero,
    lemma_mul_comm, lemma_mul_inverse, lemma_mul_distrib, lemma_mul_assoc};
use crate::polynomial::{Polynomial, poly_eval};
use crate::rng::{new_rng, choose_distinct_nonzero};

verus! {

/// The ways splitting or combining can fail. All failures are decided
/// by the shape of the input, before any field arithmetic runs.
#[derive(Clone, Copy, Debug, PartialEq, Eq, Structural)]
pub enum ShamirError {
    /// Fewer parts were requested than the threshold.
    PartsBelowThreshold,
    /// More than 255 parts were requested.
    PartsOutOfRange,
    /// A threshold below 2 was requested.
    ThresholdTooLow,
    /// A threshold above 255 was requested.
    ThresholdOutOfRange,
    /// The secret to split is empty.
    EmptySecret,
    /// Fewer than two shares were handed to combine.
    TooFewShares,
    /// A share is shorter than two bytes, or two shares differ in length.
    MalformedOrMismatchedShares,
    /// Two shares carry the same trailing x-coordinate.
    DuplicateShareCoordinate,
}

/// The views of a sequence of byte vectors.
pub open spec fn share_views(shares: Seq<Vec<u8>>) -> Seq<Seq<u8>> {
    Seq::new(shares.len(), |j: int| shares[j]@)
}

/// The x-coordinate of a share: its final byte.
pub open spec fn share_x(share: Seq<u8>) -> u8 {
    share[share.len() - 1]
}

/// The first reason a split request is rejected, if any, with the
/// checks made in this order.
pub open spec fn split_validation(secret: Seq<u8>, parts: int, threshold: int) -> Option<
    ShamirError,
> {
    if parts < threshold {
        Some(ShamirError::PartsBelowThreshold)
    } else if parts > 255 {
        Some(ShamirError::PartsOutOfRange)
    } else if threshold < 2 {
        Some(ShamirError::ThresholdTooLow)
    } else if threshold > 255 {
        Some(ShamirError::ThresholdOutOfRange)
    } else if secret.len() == 0 {
        Some(ShamirError::EmptySecret)
    } else {
        None
    }
}

/// The shape every successful split has: exactly `parts` shares, each
/// one byte longer than the secret, whose trailing x-coordinates are
/// nonzero and pairwise distinct.
pub open spec fn shares_well_formed(shares: Seq<Seq<u8>>, secret_len: int, parts: int) -> bool {
    &&& shares.len() == parts
    &&& forall|j: int| 0 <= j < shares.len() ==> (#[trigger] shares[j]).len() == secret_len + 1
    &&& forall|j: int| 0 <= j < shares.len() ==> share_x(#[trigger] shares[j]) != 0
    &&& forall|i: int, j: int|
        0 <= i < j < shares.len() ==> share_x(shares[i]) != share_x(shares[j])
}

/// Consistency of shares with a family of polynomials: one polynomial
/// per secret byte, with `threshold` coefficients and that byte as
/// intercept, and share j at position i holds the value at share j's
/// x-coordinate of the polynomial protecting byte i.
pub open spec fn shares_match_polynomials(
    secret: Seq<u8>,
    threshold: int,
    shares: Seq<Seq<u8>>,
    polys: Seq<Seq<u8>>,
) -> bool {
    &&& polys.len() == secret.len()
    &&& forall|i: int| 0 <= i < polys.len() ==> (#[trigger] polys[i]).len() == threshold
    &&& forall|i: int| 0 <= i < polys.len() ==> (#[trigger] polys[i])[0] == secret[i]
    &&& forall|j: int, i: int|
        0 <= j < shares.len() && 0 <= i < secret.len() ==> (#[trigger] shares[j][i]) == poly_eval(
            polys[i],
            share_x(shares[j]),
        )
}

/// The Lagrange basis factor for sample `i` built from the first `k`
/// x-coordinates: the product over j < k, j != i, of
/// (x + x_j) / (x_i + x_j), addition in GF(2^8) serving as subtraction.
pub open spec fn lagrange_basis(xs: Seq<u8>, i: int, x: u8, k: int) -> u8
    decreases k,
{
    if k <= 0 {
        1
    } else if k - 1 == i {
        lagrange_basis(xs, i, x, k - 1)
    } else {
        gf_mul(
            lagrange_basis(xs, i, x, k - 1),
            gf_div(gf_add(x, xs[k - 1]), gf_add(xs[i], xs[k - 1])),
        )
    }
}

/// The sum of y_i times the Lagrange basis factor for i, over the first
/// `k` samples.
pub open spec fn lagrange_partial(xs: Seq<u8>, ys: Seq<u8>, x: u8, k: int) -> u8
    decreases k,
{
    if k <= 0 {
        0
    } else {
        gf_add(
            lagrange_partial(xs, ys, x, k - 1),
            gf_mul(ys[k - 1], lagrange_basis(xs, k - 1, x, xs.len() as int)),
        )
    }
}

/// Lagrange interpolation at `x` of the samples (xs[i], ys[i]) over
/// GF(2^8).
pub open spec fn interpolate(xs: Seq<u8>, ys: Seq<u8>, x: u8) -> u8 {
    lagrange_partial(xs, ys, x, xs.len() as int)
}

/// Round trip at the smallest threshold: a polynomial with two
/// coefficients, sampled at two distinct points, is recovered at zero
/// by Lagrange interpolation of the two samples — the interpolation
/// returns the polynomial's intercept exactly.
pub proof fn lemma_round_trip_two_shares(c0: u8, c1: u8, x0: u8, x1: u8)
    requires
        x0 != x1,
    ensures
        interpolate(
            seq![x0, x1],
            seq![poly_eval(seq![c0, c1], x0), poly_eval(seq![c0, c1], x1)],
            0,
        ) == c0,
{
    let s = seq![c0, c1];
    let y0 = poly_eval(s, x0);
    let y1 = poly_eval(s, x1);

    // Unfold the evaluations: y == c1 * x + c0.
    assert(s.subrange(1, 2) =~= seq![c1]);
    assert(seq![c1].subrange(1, 1) =~= Seq::<u8>::empty());
    assert(poly_eval(Seq::<u8>::empty(), x0) == 0);
    assert(poly_eval(Seq::<u8>::empty(), x1) == 0);
    lemma_mul_zero(x0);
    lemma_mul_zero(x1);
    assert(0u8 ^ c1 == c1) by (bit_vector);
    assert(poly_eval(seq![c1], x0) == c1);
    assert(poly_eval(seq![c1], x1) == c1);
    let u0 = gf_mul(c1, x0);
    let u1 = gf_mul(c1, x1);
    assert(y0 == gf_add(u0, c0));
    assert(y1 == gf_add(u1, c0));

    // Unfold the interpolation at zero of the two samples.
    let xs = seq![x0, x1];
    let ys = seq![y0, y1];
    assert(0u8 ^ x0 == x0 && 0u8 ^ x1 == x1 && x1 ^ x0 == x0 ^ x1) by (bit_vector);
    let d = gf_add(x0, x1);
    let q0 = gf_div(x1, d);
    let q1 = gf_div(x0, d);
    assert(lagrange_basis(xs, 0, 0, 0) == 1);
    assert(lagrange_basis(xs, 0, 0, 1) == 1);
    assert(lagrange_basis(xs, 0, 0, 2) == gf_mul(1, q0));
    lemma_mul_one(q0);
    lemma_mul_one(q1);
    assert(lagrange_basis(xs, 0, 0, 2) == q0);
    assert(lagrange_basis(xs, 1, 0, 0) == 1);
    assert(lagrange_basis(xs, 1, 0, 1) == gf_mul(1, q1));
    assert(lagrange_basis(xs, 1, 0, 2) == q1);
    let t0 = gf_mul(y0, q0);
    let t1 = gf_mul(y1, q1);
    assert(0u8 ^ t0 == t0) by (bit_vector);
    assert(lagrange_partial(xs, ys, 0, 0) == 0);
    assert(lagrange_partial(xs, ys, 0, 1) == t0);
    assert(lagrange_partial(xs, ys, 0, 2) == gf_add(t0, t1));
    assert(interpolate(xs, ys, 0) == gf_add(t0, t1));

    // Each division is a multiplication by the inverse of the nonzero
    // denominator.
    assert(x0 != x1 ==> (x0 ^ x1) != 0) by (bit_vector);
    let i = gf_inverse(d);
    lemma_mul_zero(i);
    assert(q0 == gf_mul(x1, i));
    assert(q1 == gf_mul(x0, i));

    // The two basis factors add to one: (x1 + x0) / d == d / d == 1.
    lemma_mul_distrib(x1, x0, i);
    lemma_mul_inverse(d);
    assert(gf_add(q0, q1) == 1);

    // Split each summand along y == c1 * x + c0.
    lemma_mul_distrib(u0, c0, q0);
    lemma_mul_distrib(u1, c0, q1);
    let ta = gf_mul(u0, q0);
    let tb = gf_mul(c0, q0);
    let tc = gf_mul(u1, q1);
    let td = gf_mul(c0, q1);
    assert(t0 == gf_add(ta, tb));
    assert(t1 == gf_add(tc, td));

    // The random-coefficient terms agree, so they cancel:
    // (c1 x0)(x1 i) == c1 ((x0 x1) i) == (c1 x1)(x0 i).
    lemma_mul_assoc(c1, x0, gf_mul(x1, i));
    lemma_mul_assoc(x0, x1, i);
    lemma_mul_comm(x0, x1);
    lemma_mul_assoc(x1, x0, i);
    lemma_mul_assoc(c1, x1, gf_mul(x0, i));
    assert(ta == tc);

    // The intercept terms add to c0 (q0 + q1) == c0.
    lemma_mul_comm(c0, q0);
    lemma_mul_comm(c0, q1);
    lemma_mul_distrib(q0, q1, c0);
    lemma_mul_one(c0);
    assert(gf_add(tb, td) == gf_mul(gf_add(q0, q1), c0));
    assert(gf_add(tb, td) == c0);

    let va = ta;
    let vb = tb;
    let vc = tc;
    let vd = td;
    assert((va == vc && (vb ^ vd) == c0) ==> ((va ^ vb) ^ (vc ^ vd)) == c0) by (bit_vector);
    assert(gf_add(t0, t1) == c0);
}

/// The x-coordinates of a sequence of shares, in share order.
pub open spec fn xs_of(shares: Seq<Seq<u8>>) -> Seq<u8> {
    Seq::new(shares.len(), |j: int| share_x(shares[j]))
}

/// The y-coordinates of a sequence of shares at byte position `i`, in
/// share order.
pub open spec fn ys_of(shares: Seq<Seq<u8>>, i: int) -> Seq<u8> {
    Seq::new(shares.len(), |j: int| shares[j][i])
}

/// The first reason a collection of shares is rejected by combine, if
/// any, with the checks made in this order.
pub open spec fn combine_validation(shares: Seq<Seq<u8>>) -> Option<ShamirError> {
    if shares.len() < 2 {
        Some(ShamirError::TooFewShares)
    } else if shares[0].len() < 2 || exists|j: int|
        0 <= j < shares.len() && (#[trigger] shares[j]).len() != shares[0].len() {
        Some(ShamirError::MalformedOrMismatchedShares)
    } else if exists|i: int, j: int|
        0 <= i < j < shares.len() && share_x(shares[i]) == share_x(shares[j]) {
        Some(ShamirError::DuplicateShareCoordinate)
    } else {
        None
    }
}

/// Interpolates at `x` the polynomial through the samples
/// (x_samples[i], y_samples[i]) by Lagrange interpolation in GF(2^8).
/// The x-coordinates must be pairwise distinct; otherwise a basis
/// denominator would be zero.
#[verifier::loop_isolation(false)]
#[verifier::rlimit(100)]
pub fn interpolate_polynomial(x_samples: &Vec<u8>, y_samples: &Vec<u8>, x: u8) -> (r: u8)
    requires
        x_samples@.len() == y_samples@.len(),
        forall|i: int, j: int|
            0 <= i < j < x_samples@.len() ==> x_samples@[i] != x_samples@[j],
    ensures
        r == interpolate(x_samples@, y_samples@, x),
{
    let n = x_samples.len();
    let mut result: u8 = 0;
    let mut i: usize = 0;
    while i < n
        invariant
            i <= n,
            result == lagrange_partial(x_samples@, y_samples@, x, i as int),
        decreases n - i,
    {
        let mut basis: u8 = 1;
        let mut j: usize = 0;
        while j < n
            invariant
                j <= n,
                i < n,
                basis == lagrange_basis(x_samples@, i as int, x, j as int),
            decreases n - j,
        {
            if j != i {
                let num = GF256::add(x, x_samples[j]);
                let denom = GF256::add(x_samples[i], x_samples[j]);
                proof {
                    let u = x_samples@[i as int];
                    let v = x_samples@[j as int];
                    assert(u != v);
                    assert(u != v ==> (u ^ v) != 0) by (bit_vector);
                }
                let term = GF256::div(num, denom);
                basis = GF256::mult(basis, term);
            }
            j = j + 1;
        }
        let term = GF256::mult(y_samples[i], basis);
        result = GF256::add(result, term);
        i = i + 1;
    }
    result
}

/// Splits a secret into `parts` shares of which any `threshold` suffice
/// to reconstruct it. The x-coordinates are drawn at random without
/// replacement from the nonzero field elements, and each secret byte is
/// protected by a fresh random polynomial with that byte as intercept.
/// Exactly the requests named by `split_validation` are rejected, in
/// that order; every accepted request yields well-formed shares that
/// evaluate a family of threshold-sized polynomials over the secret.
#[verifier::loop_isolation(false)]
pub fn split(secret: &Vec<u8>, parts: usize, threshold: usize) -> (r: Result<
    Vec<Vec<u8>>,
    ShamirError,
>)
    ensures
        r is Err <==> split_validation(secret@, parts as int, threshold as int) is Some,
        r is Err ==> Some(r->Err_0) == split_validation(
            secret@,
            parts as int,
            threshold as int,
        ),
        r is Ok ==> shares_well_formed(share_views(r->Ok_0@), secret@.len() as int, parts as int),
        r is Ok ==> exists|polys: Seq<Seq<u8>>|
            shares_match_polynomials(secret@, threshold as int, share_views(r->Ok_0@), polys),
{
    if parts < threshold {
        return Err(ShamirError::PartsBelowThreshold);
    }
    if parts > 255 {
        return Err(ShamirError::PartsOutOfRange);
    }
    if threshold < 2 {
        return Err(ShamirError::ThresholdTooLow);
    }
    if threshold > 255 {
        return Err(ShamirError::ThresholdOutOfRange);
    }
    if secret.len() == 0 {
        return Err(ShamirError::EmptySecret);
    }
    let mut rng = new_rng();
    let x_coordinates = choose_distinct_nonzero(&mut rng, parts);

    let mut polys: Vec<Polynomial> = Vec::new();
    let mut i: usize = 0;
    while i < secret.len()
        invariant
            i <= secret@.len(),
            polys@.len() == i,
            forall|t: int| 0 <= t < i ==> (#[trigger] polys@[t]).coefficients@.len() == threshold,
            forall|t: int| 0 <= t < i ==> (#[trigger] polys@[t]).coefficients@[0] == secret@[t],
        decreases secret@.len() - i,
    {
        let p = Polynomial::new(secret[i], threshold - 1, &mut rng);
        polys.push(p);
        i = i + 1;
    }

    let mut shares: Vec<Vec<u8>> = Vec::new();
    let mut j: usize = 0;
    while j < parts
        invariant
            j <= parts,
            shares@.len() == j,
            forall|t: int| 0 <= t < j ==> (#[trigger] shares@[t])@.len() == secret@.len() + 1,
            forall|t: int|
                0 <= t < j ==> (#[trigger] shares@[t])@[secret@.len() as int]
                    == x_coordinates@[t],
            forall|t: int, p: int|
                0 <= t < j && 0 <= p < secret@.len() ==> (#[trigger] shares@[t]@[p]) == poly_eval(
                    polys@[p].coefficients@,
                    x_coordinates@[t],
                ),
        decreases parts - j,
    {
        let x = x_coordinates[j];
        let mut share: Vec<u8> = Vec::new();
        let mut p: usize = 0;
        while p < polys.len()
            invariant
                p <= polys@.len(),
                share@.len() == p,
                forall|t: int|
                    0 <= t < p ==> (#[trigger] share@[t]) == poly_eval(
                        polys@[t].coefficients@,
                        x,
                    ),
            decreases polys@.len() - p,
        {
            let y = polys[p].evaluate(x);
            share.push(y);
            p = p + 1;
        }
        share.push(x);
        shares.push(share);
        j = j + 1;
    }
    let result: Result<Vec<Vec<u8>>, ShamirError> = Ok(shares);
    proof {
        let sv = share_views(result->Ok_0@);
        assert forall|t: int| 0 <= t < sv.len() implies share_x(#[trigger] sv[t])
            == x_coordinates@[t] by {
            assert(sv[t] == result->Ok_0@[t]@);
        }
        assert(shares_well_formed(sv, secret@.len() as int, parts as int));
        let pviews = Seq::new(polys@.len(), |t: int| polys@[t].coefficients@);
        assert(shares_match_polynomials(secret@, threshold as int, sv, pviews));
        assert(exists|ps: Seq<Seq<u8>>|
            shares_match_polynomials(
                secret@,
                threshold as int,
                share_views(result->Ok_0@),
                ps,
            ));
    }
    result
}

/// Reconstructs a secret from shares: each secret byte is the Lagrange
/// interpolation at zero of the share values at that position against
/// the shares' trailing x-coordinates. Exactly the collections named by
/// `combine_validation` are rejected, in that order. The result equals
/// the original secret when at least as many shares as the original
/// threshold are supplied; with fewer, the interpolation still runs and
/// its outcome carries no guarantee.
#[verifier::loop_isolation(false)]
pub fn combine(parts: Vec<Vec<u8>>) -> (r: Result<Vec<u8>, ShamirError>)
    ensures
        r is Err <==> combine_validation(share_views(parts@)) is Some,
        r is Err ==> Some(r->Err_0) == combine_validation(share_views(parts@)),
        r is Ok ==> r->Ok_0@.len() + 1 == parts@[0]@.len(),
        r is Ok ==> forall|i: int|
            0 <= i < r->Ok_0@.len() ==> (#[trigger] r->Ok_0@[i]) == interpolate(
                xs_of(share_views(parts@)),
                ys_of(share_views(parts@), i),
                0,
            ),
{
    let n = parts.len();
    if n < 2 {
        return Err(ShamirError::TooFewShares);
    }
    let first_len = parts[0].len();
    if first_len < 2 {
        return Err(ShamirError::MalformedOrMismatchedShares);
    }
    let mut j: usize = 1;
    while j < n
        invariant
            1 <= j <= n,
            forall|t: int| 0 <= t < j ==> (#[trigger] parts@[t])@.len() == first_len,
        decreases n - j,
    {
        if parts[j].len() != first_len {
            proof {
                let sv = share_views(parts@);
                assert(forall|t: int| 0 <= t < sv.len() ==> #[trigger] sv[t] == parts@[t]@);
                assert(sv[j as int].len() != sv[0].len());
            }
            return Err(ShamirError::MalformedOrMismatchedShares);
        }
        j = j + 1;
    }

    let mut x_samples: Vec<u8> = Vec::new();
    let mut k: usize = 0;
    while k < n
        invariant
            k <= n,
            x_samples@.len() == k,
            forall|t: int|
                0 <= t < k ==> (#[trigger] x_samples@[t]) == share_x(parts@[t]@),
            forall|s: int, t: int|
                0 <= s < t < k ==> x_samples@[s] != x_samples@[t],
        decreases n - k,
    {
        let x = parts[k][first_len - 1];
        let mut s: usize = 0;
        while s < k
            invariant
                s <= k,
                k == x_samples@.len(),
                forall|t: int| 0 <= t < s ==> (#[trigger] x_samples@[t]) != x,
            decreases k - s,
        {
            if x_samples[s] == x {
                proof {
                    let sv = share_views(parts@);
                    assert(forall|t: int| 0 <= t < sv.len() ==> #[trigger] sv[t] == parts@[t]@);
                    assert(share_x(sv[s as int]) == share_x(sv[k as int]));
                    assert(combine_validation(sv) == Some(
                        ShamirError::DuplicateShareCoordinate,
                    ));
                }
                return Err(ShamirError::DuplicateShareCoordinate);
            }
            s = s + 1;
        }
        x_samples.push(x);
        k = k + 1;
    }

    let secret_len = first_len - 1;
    let mut secret: Vec<u8> = Vec::new();
    let mut idx: usize = 0;
    while idx < secret_len
        invariant
            idx <= secret_len,
            secret@.len() == idx,
            forall|i: int|
                0 <= i < idx ==> (#[trigger] secret@[i]) == interpolate(
                    xs_of(share_views(parts@)),
                    ys_of(share_views(parts@), i),
                    0,
                ),
        decreases secret_len - idx,
    {
        let mut y_samples: Vec<u8> = Vec::new();
        let mut j2: usize = 0;
        while j2 < n
            invariant
                j2 <= n,
                y_samples@.len() == j2,
                idx < secret_len,
                forall|t: int| 0 <= t < j2 ==> (#[trigger] y_samples@[t]) == parts@[t]@[idx as int],
            decreases n - j2,
        {
            y_samples.push(parts[j2][idx]);
            j2 = j2 + 1;
        }
        proof {
            assert(x_samples@ =~= xs_of(share_views(parts@)));
            assert(y_samples@ =~= ys_of(share_views(parts@), idx as int));
        }
        let v = interpolate_polynomial(&x_samples, &y_samples, 0);
        secret.push(v);
        idx = idx + 1;
    }
    proof {
        let sv = share_views(parts@);
        assert(forall|t: int| 0 <= t < sv.len() ==> #[trigger] sv[t] == parts@[t]@);
        assert forall|s: int, t: int| 0 <= s < t < sv.len() implies share_x(sv[s]) != share_x(
            sv[t],
        ) by {
            assert(x_samples@[s] == share_x(parts@[s]@));
            assert(x_samples@[t] == share_x(parts@[t]@));
        }
        assert(combine_validation(sv) is None);
    }
    Ok(secret)
}

} // verus!
