use num_traits::ToPrimitive;
use utilities::bft_models::{BFTError, BFT, N3F1, N5F1};

#[test]
fn test_wrong_type() {
    assert_eq!(N3F1::quorum((-1).to_u64()), Err(BFTError::WrongType));
    assert_eq!(N3F1::quorum((-3.14).to_u64()), Err(BFTError::WrongType));
    assert_eq!(N3F1::max_faults((-1).to_u64()), Err(BFTError::WrongType));
    assert_eq!(N3F1::max_faults((-3.14).to_u64()), Err(BFTError::WrongType));

    assert_eq!(N5F1::quorum((-1).to_u64()), Err(BFTError::WrongType));
    assert_eq!(N5F1::quorum((-3.14).to_u64()), Err(BFTError::WrongType));
    assert_eq!(N5F1::max_faults((-1).to_u64()), Err(BFTError::WrongType));
    assert_eq!(N5F1::max_faults((-3.14).to_u64()), Err(BFTError::WrongType));
}

#[test]
fn test_two_small() {
    assert_eq!(N3F1::quorum(0.to_u64()), Err(BFTError::TooSmall { min: 4, got: 0 }));
    assert_eq!(N3F1::quorum(1.to_u64()), Err(BFTError::TooSmall { min: 4, got: 1 }));
    assert_eq!(N3F1::quorum(2.to_u64()), Err(BFTError::TooSmall { min: 4, got: 2 }));
    assert_eq!(N3F1::quorum(3.to_u64()), Err(BFTError::TooSmall { min: 4, got: 3 }));

    assert_eq!(N5F1::quorum(0.to_u64()), Err(BFTError::TooSmall { min: 6, got: 0 }));
    assert_eq!(N5F1::quorum(1.to_u64()), Err(BFTError::TooSmall { min: 6, got: 1 }));
    assert_eq!(N5F1::quorum(2.to_u64()), Err(BFTError::TooSmall { min: 6, got: 2 }));
    assert_eq!(N5F1::quorum(3.to_u64()), Err(BFTError::TooSmall { min: 6, got: 3 }));
    assert_eq!(N5F1::quorum(4.to_u64()), Err(BFTError::TooSmall { min: 6, got: 4 }));
    assert_eq!(N5F1::quorum(5.to_u64()), Err(BFTError::TooSmall { min: 6, got: 5 }));
}

#[test]
fn test_bft_n3f1() {
    // case(N, F, Quorum) for N3F1.
    let cases: [(u64, u64, u64); 18] = [
        (4, 1, 3),
        (5, 1, 4),
        (6, 1, 5),
        (7, 2, 5),
        (8, 2, 6),
        (9, 2, 7),
        (10, 3, 7),
        (11, 3, 8),
        (12, 3, 9),
        (13, 4, 9),
        (14, 4, 10),
        (15, 4, 11),
        (16, 5, 11),
        (17, 5, 12),
        (18, 5, 13),
        (19, 6, 13),
        (20, 6, 14),
        (21, 6, 15),
    ];
    for (n, expected_f, expected_q) in cases {
        assert_eq!(N3F1::max_faults(n.to_u64()).unwrap(), expected_f);
        assert_eq!(N3F1::quorum(n.to_u64()).unwrap(), expected_q);
        assert_eq!(n, expected_f + expected_q);
    }
}

#[test]
fn test_bft_n5f1() {
    // case(N, F, Quorum)
    let cases: [(u64, u64, u64); 16] = [
        (6, 1, 5),
        (7, 1, 6),
        (8, 1, 7),
        (9, 1, 8),
        (10, 1, 9),
        (11, 2, 9),
        (12, 2, 10),
        (13, 2, 11),
        (14, 2, 12),
        (15, 2, 13),
        (16, 3, 13),
        (17, 3, 14),
        (18, 3, 15),
        (19, 3, 16),
        (20, 3, 17),
        (21, 4, 17),
    ];
    for (n, expected_f, expected_quorum) in cases {
        assert_eq!(N5F1::max_faults(n.to_u64()).unwrap(), expected_f);
        assert_eq!(N5F1::quorum(n.to_u64()).unwrap(), expected_quorum);
        assert_eq!(n, expected_f + expected_quorum);
    }
}

#[test]
fn test_with_integer_types() {
    assert_eq!(N3F1::max_faults(10u8.to_u64()).unwrap(), 3);
    assert_eq!(N3F1::max_faults(10u16.to_u64()).unwrap(), 3);
    assert_eq!(N3F1::max_faults(10u32.to_u64()).unwrap(), 3);
    assert_eq!(N3F1::max_faults(10u64.to_u64()).unwrap(), 3);
    assert_eq!(N3F1::max_faults(10usize.to_u64()).unwrap(), 3);
    assert_eq!(N3F1::max_faults(10i32.to_u64()).unwrap(), 3);
    assert_eq!(N3F1::max_faults(10i64.to_u64()).unwrap(), 3);

    assert_eq!(N3F1::quorum(10u8.to_u64()).unwrap(), 7);
    assert_eq!(N3F1::quorum(10u16.to_u64()).unwrap(), 7);
    assert_eq!(N3F1::quorum(10u64.to_u64()).unwrap(), 7);
    assert_eq!(N3F1::quorum(10usize.to_u64()).unwrap(), 7);
    assert_eq!(N3F1::quorum(10i32.to_u64()).unwrap(), 7);
    assert_eq!(N3F1::quorum(10i64.to_u64()).unwrap(), 7);

    assert_eq!(N5F1::max_faults(10u64.to_u64()).unwrap(), 1);
    assert_eq!(N5F1::quorum(10usize.to_u64()).unwrap(), 9);
}

/// BFT safety property: there is at least one honest participant overlapped
/// between two quorum of participants.
#[test]
fn test_bft_model_safety_property() {
    for n in 6u64..5_000 {
        // N3F1 safety
        let f_3f1 = N3F1::max_faults(Some(n)).unwrap();
        let q_3f1 = N3F1::quorum(Some(n)).unwrap();
        assert!(
            2 * q_3f1 > n + f_3f1,
            "N3f1 safety property violated for n={}: 2*{} <= {} + {}",
            n,
            q_3f1,
            n,
            f_3f1
        );

        // N5F1 safety
        let f_5f1 = N5F1::max_faults(Some(n)).unwrap();
        let q_5f1 = N5F1::quorum(Some(n)).unwrap();
        assert!(
            2 * q_5f1 > n + f_5f1,
            "N5f1 safety property violated for n={}: 2*{} <= {} + {}",
            n,
            q_5f1,
            n,
            f_5f1
        );
    }
}

#[test]
fn wrong_type_comes_before_too_small() {
    assert_eq!(N5F1::max_faults(None), Err(BFTError::WrongType));
    assert_eq!(N3F1::max_faults(Some(3)), Err(BFTError::TooSmall { min: 4, got: 3 }));
    assert_eq!(N5F1::max_faults(Some(5)), Err(BFTError::TooSmall { min: 6, got: 5 }));
}

#[test]
fn large_weights_do_not_overflow() {
    assert_eq!(N3F1::max_faults(Some(u64::MAX)).unwrap(), (u64::MAX - 1) / 3);
    assert_eq!(N3F1::quorum(Some(u64::MAX)).unwrap(), u64::MAX - (u64::MAX - 1) / 3);
    assert_eq!(N5F1::quorum(Some(u64::MAX)).unwrap(), u64::MAX - (u64::MAX - 1) / 5);
}
