//! BFT (Byzantine fault tolerance) models.
//!
//! Quorum and fault arithmetic for primary BFT consensus:
//!
//! - [`N3F1`]: the system model needs `n = 3*f + 1` (Tendermint, Simplex, ...).
//! - [`N5F1`]: the system model needs `n = 5*f + 1` (SNARE, ...).
//!
//! `n` is the total weight of the participants and `f` the largest weight of faulty
//! participants. Each computation takes `n` as converted to a `u64`; `None` stands for
//! a weight that has no `u64` value (negative, or not an integer in range).

use vstd::prelude::*;

verus! {

/// Errors of an invalid total weight.
#[derive(Debug, Clone, Copy, PartialEq, Eq, Structural)]
pub enum BFTError {
    /// The weight is not a non-negative integer that fits in a `u64`.
    WrongType,
    /// The weight is below the least weight the model accepts.
    TooSmall { min: u64, got: u64 },
}

/// What a model computation returns for the weight `n`: `WrongType` without a weight,
/// `TooSmall` below `min`, and `value` otherwise.
pub open spec fn model_outcome(n: Option<u64>, min: u64, value: u64) -> Result<u64, BFTError> {
    match n {
        None => Err(BFTError::WrongType),
        Some(w) => if w < min {
            Err(BFTError::TooSmall { min, got: w })
        } else {
            Ok(value)
        },
    }
}

/// The weight carried by `n`, or zero without one.
pub open spec fn weight_of(n: Option<u64>) -> u64 {
    match n {
        Some(w) => w,
        None => 0,
    }
}

/// A BFT model: computes the quorum weight and the largest faulty weight for a total
/// weight `n`.
pub trait BFT {
    /// The least total weight the model accepts.
    spec fn least_weight() -> u64;

    /// The quorum weight for the total weight `n`.
    spec fn quorum_of(n: u64) -> u64;

    /// The largest faulty weight for the total weight `n`.
    spec fn max_faults_of(n: u64) -> u64;

    /// The quorum weight of participants.
    fn quorum(n: Option<u64>) -> (r: Result<u64, BFTError>)
        ensures
            r == model_outcome(n, Self::least_weight(), Self::quorum_of(weight_of(n))),
    ;

    /// The largest weight of faulty participants.
    fn max_faults(n: Option<u64>) -> (r: Result<u64, BFTError>)
        ensures
            r == model_outcome(n, Self::least_weight(), Self::max_faults_of(weight_of(n))),
    ;
}

/// BFT model with `n = 3*f + 1` as the participant setup.
pub struct N3F1;

impl BFT for N3F1 {
    open spec fn least_weight() -> u64 {
        4
    }

    open spec fn quorum_of(n: u64) -> u64 {
        (n - (n - 1) / 3) as u64
    }

    open spec fn max_faults_of(n: u64) -> u64 {
        ((n - 1) / 3) as u64
    }

    fn quorum(n: Option<u64>) -> (r: Result<u64, BFTError>) {
        let n = match n {
            Some(w) => w,
            None => return Err(BFTError::WrongType),
        };
        if n < 4 {
            return Err(BFTError::TooSmall { min: 4, got: n });
        }
        Ok(n - (n - 1) / 3)
    }

    fn max_faults(n: Option<u64>) -> (r: Result<u64, BFTError>) {
        let n = match n {
            Some(w) => w,
            None => return Err(BFTError::WrongType),
        };
        if n < 4 {
            return Err(BFTError::TooSmall { min: 4, got: n });
        }
        Ok((n - 1) / 3)
    }
}

/// BFT model with `n = 5*f + 1` as the participant setup.
pub struct N5F1;

impl BFT for N5F1 {
    open spec fn least_weight() -> u64 {
        6
    }

    open spec fn quorum_of(n: u64) -> u64 {
        (n - (n - 1) / 5) as u64
    }

    open spec fn max_faults_of(n: u64) -> u64 {
        ((n - 1) / 5) as u64
    }

    fn quorum(n: Option<u64>) -> (r: Result<u64, BFTError>) {
        let n = match n {
            Some(w) => w,
            None => return Err(BFTError::WrongType),
        };
        if n < 6 {
            return Err(BFTError::TooSmall { min: 6, got: n });
        }
        Ok(n - (n - 1) / 5)
    }

    fn max_faults(n: Option<u64>) -> (r: Result<u64, BFTError>) {
        let n = match n {
            Some(w) => w,
            None => return Err(BFTError::WrongType),
        };
        if n < 6 {
            return Err(BFTError::TooSmall { min: 6, got: n });
        }
        Ok((n - 1) / 5)
    }
}

/// In the `n = 3*f + 1` model, for every accepted weight `n`: the quorum and the
/// faulty weight add up to `n`; `f` is the largest weight with `3*f + 1 <= n`; and
/// two quorums overlap in more than `f`, so in at least one honest participant.
pub proof fn law_n3f1_quorums_intersect(n: u64)
    requires
        n >= N3F1::least_weight(),
    ensures
        N3F1::quorum_of(n) + N3F1::max_faults_of(n) == n,
        3 * N3F1::max_faults_of(n) + 1 <= n < 3 * (N3F1::max_faults_of(n) + 1) + 1,
        2 * N3F1::quorum_of(n) > n + N3F1::max_faults_of(n),
{
}

/// In the `n = 5*f + 1` model, for every accepted weight `n`: the quorum and the
/// faulty weight add up to `n`; `f` is the largest weight with `5*f + 1 <= n`; and
/// two quorums overlap in more than `f`, so in at least one honest participant.
pub proof fn law_n5f1_quorums_intersect(n: u64)
    requires
        n >= N5F1::least_weight(),
    ensures
        N5F1::quorum_of(n) + N5F1::max_faults_of(n) == n,
        5 * N5F1::max_faults_of(n) + 1 <= n < 5 * (N5F1::max_faults_of(n) + 1) + 1,
        2 * N5F1::quorum_of(n) > n + N5F1::max_faults_of(n),
{
}

} // verus!
