use shamir::gf256::GF256;
use shamir::polynomial::Polynomial;
use shamir::shamir::{combine, interpolate_polynomial, split, ShamirError};

#[test]
fn test_field_add() {
    assert_eq!(GF256::add(16, 16), 0);
    assert_eq!(GF256::add(3, 4), 7);
}

#[test]
fn test_field_mult() {
    assert_eq!(GF256::mult(3, 7), 9);
    assert_eq!(GF256::mult(3, 0), 0);
    assert_eq!(GF256::mult(0, 3), 0);
}

#[test]
fn test_field_divide() {
    assert_eq!(GF256::div(0, 7), 0);
    assert_eq!(GF256::div(3, 3), 1);
    assert_eq!(GF256::div(6, 3), 2);
}

#[test]
fn test_field_identities() {
    for a in 0..=255u8 {
        assert_eq!(GF256::add(a, a), 0);
        for b in 0..=255u8 {
            assert_eq!(GF256::mult(a, b), GF256::mult(b, a));
        }
    }
    for a in 1..=255u8 {
        assert_eq!(GF256::mult(a, GF256::inverse(a)), 1);
    }
    for a in 0..=255u8 {
        for b in 1..=255u8 {
            assert_eq!(GF256::mult(GF256::div(a, b), b), a);
        }
    }
}

#[test]
fn test_polynomial_random() {
    let mut rng = rand::thread_rng();
    let p = Polynomial::new(42, 2, &mut rng);
    assert_eq!(p.coefficients[0], 42);
}

#[test]
fn test_polynomial_eval() {
    let mut rng = rand::thread_rng();
    let p = Polynomial::new(42, 1, &mut rng);
    let mut out = p.evaluate(0);
    assert_eq!(out, 42);
    out = p.evaluate(1);
    let exp = GF256::add(42, GF256::mult(1, p.coefficients[1]));
    assert_eq!(out, exp);
}

#[test]
fn test_split_invalid() {
    let secret = b"test".to_vec();

    assert_eq!(split(&secret, 0, 0), Err(ShamirError::ThresholdTooLow));
    assert_eq!(split(&secret, 2, 3), Err(ShamirError::PartsBelowThreshold));
    assert_eq!(split(&secret, 1000, 3), Err(ShamirError::PartsOutOfRange));
    assert_eq!(split(&secret, 10, 1), Err(ShamirError::ThresholdTooLow));
    let empty: Vec<u8> = Vec::new();
    assert_eq!(split(&empty, 3, 2), Err(ShamirError::EmptySecret));
}

#[test]
fn test_split() {
    let secret = b"test".to_vec();

    let out = split(&secret, 5, 3).unwrap();
    assert_eq!(out.len(), 5);

    out.iter().for_each(|share| {
        assert_eq!(share.len(), secret.len() + 1);
    });
}

#[test]
fn test_share_shape() {
    let secret = b"test".to_vec();
    let out = split(&secret, 5, 3).unwrap();
    assert_eq!(out.len(), 5);
    for (i, share) in out.iter().enumerate() {
        assert_eq!(share.len(), secret.len() + 1);
        let x = share[share.len() - 1];
        assert!(x >= 1);
        for other in out.iter().skip(i + 1) {
            assert_ne!(x, other[other.len() - 1]);
        }
    }
}

#[test]
fn test_combine_invalid() {
    assert_eq!(combine(vec![]), Err(ShamirError::TooFewShares));

    let parts = [b"foo".to_vec(), b"ba".to_vec()];
    assert_eq!(
        combine(parts.to_vec()),
        Err(ShamirError::MalformedOrMismatchedShares)
    );

    let short_parts = [b"f".to_vec(), b"b".to_vec()];
    assert_eq!(
        combine(short_parts.to_vec()),
        Err(ShamirError::MalformedOrMismatchedShares)
    );

    let same_parts = [b"foo".to_vec(), b"foo".to_vec()];
    assert_eq!(
        combine(same_parts.to_vec()),
        Err(ShamirError::DuplicateShareCoordinate)
    );
}

#[test]
fn test_validation_errors() {
    let secret = b"secret".to_vec();
    assert_eq!(split(&secret, 2, 3), Err(ShamirError::PartsBelowThreshold));
    let empty: Vec<u8> = Vec::new();
    assert_eq!(split(&empty, 5, 3), Err(ShamirError::EmptySecret));
    assert_eq!(split(&secret, 300, 3), Err(ShamirError::PartsOutOfRange));
    // The parts checks run first, so an oversized threshold surfaces as
    // one of them: parts below it, or parts beyond 255 alongside it.
    assert_eq!(split(&secret, 5, 300), Err(ShamirError::PartsBelowThreshold));
    assert_eq!(split(&secret, 300, 300), Err(ShamirError::PartsOutOfRange));

    let shares = split(&secret, 5, 3).unwrap();
    assert_eq!(
        combine(vec![shares[0].clone()]),
        Err(ShamirError::TooFewShares)
    );
    assert_eq!(
        combine(vec![shares[0].clone(), shares[0].clone()]),
        Err(ShamirError::DuplicateShareCoordinate)
    );
}

#[test]
fn test_combine() {
    let secret = b"test".to_vec();
    let out = split(&secret, 5, 3).unwrap();

    for i in 0..5 {
        for j in 0..5 {
            if j == i {
                continue;
            }
            for k in 0..5 {
                if k == i || k == j {
                    continue;
                }
                let parts = vec![out[i].clone(), out[j].clone(), out[k].clone()];
                let recomb = combine(parts).unwrap();
                assert_eq!(recomb, secret);
            }
        }
    }
}

#[test]
fn test_concrete_scenario() {
    let secret = vec![0x74, 0x65, 0x73, 0x74];
    let shares = split(&secret, 5, 3).unwrap();
    assert_eq!(shares.len(), 5);
    for share in &shares {
        assert_eq!(share.len(), 5);
    }
    for i in 0..5 {
        for j in (i + 1)..5 {
            for k in (j + 1)..5 {
                let subset = vec![shares[i].clone(), shares[j].clone(), shares[k].clone()];
                assert_eq!(combine(subset).unwrap(), vec![0x74, 0x65, 0x73, 0x74]);
            }
        }
    }
}

#[test]
fn test_round_trip_all_shares() {
    let secret = b"a longer secret with several bytes".to_vec();
    for threshold in [2usize, 3, 7] {
        for parts in [threshold, threshold + 1, threshold + 4] {
            let shares = split(&secret, parts, threshold).unwrap();
            assert_eq!(shares.len(), parts);
            assert_eq!(combine(shares).unwrap(), secret);
        }
    }
}

#[test]
fn test_under_threshold() {
    let secret = b"test".to_vec();
    let shares = split(&secret, 5, 3).unwrap();
    // Two shares of a threshold-3 split still combine without error, but
    // nothing guarantees the outcome; only its length is determined.
    let out = combine(vec![shares[0].clone(), shares[1].clone()]).unwrap();
    assert_eq!(out.len(), secret.len());
}

#[test]
fn test_interpolate_rand() {
    let mut rng = rand::thread_rng();
    for i in 0..255 {
        let p = Polynomial::new(i, 2, &mut rng);
        let x_vals = vec![1, 2, 3];
        let y_vals = vec![p.evaluate(1), p.evaluate(2), p.evaluate(3)];
        let out = interpolate_polynomial(&x_vals, &y_vals, 0);
        assert_eq!(out, i);
    }
}
