//! What an estimate has to look like.
use vstd::prelude::*;

use crate::binary64::Binary64;
use crate::messages::EgoStateEstimate;
use crate::scenario::EgoEstimatorAlgorithm;
use crate::text::{count_text, decimal};

verus! {

/// What is wrong with an estimate.
#[derive(Debug, Clone, Copy, PartialEq, Eq, Structural)]
pub enum EstimateError {
    NoPose,
    NoPosition,
    NonFiniteState,
    CovarianceSize { found: usize, expected: usize },
    NonFiniteCovariance,
    NegativeVariance { index: usize },
    NoGyroBias,
    NoAccelerometerBias,
}

/// Whether position, heading and speed are all finite.
pub open spec fn state_is_finite(estimate: EgoStateEstimate) -> bool {
    let pose = estimate.pose_world->0;
    let position = pose.position->0;
    &&& position.x.is_finite()
    &&& position.y.is_finite()
    &&& pose.yaw_rad.is_finite()
    &&& estimate.forward_speed_mps.is_finite()
}

pub open spec fn all_finite(values: Seq<Binary64>) -> bool {
    forall|i: int| 0 <= i < values.len() ==> (#[trigger] values[i]).is_finite()
}

/// The entry at `index` on the diagonal of a square matrix stored row by row.
pub open spec fn diagonal_entry(covariance: Seq<Binary64>, dimension: int, index: int) -> Binary64 {
    covariance[index * dimension + index]
}

/// Whether the diagonal's first `count` entries are at least zero.
pub open spec fn diagonal_is_nonnegative(
    covariance: Seq<Binary64>,
    dimension: int,
    count: int,
) -> bool {
    forall|index: int|
        0 <= index < count ==> (#[trigger] diagonal_entry(
            covariance,
            dimension,
            index,
        )).is_nonnegative()
}

pub open spec fn has_finite(value: Option<Binary64>) -> bool {
    value is Some && value->0.is_finite()
}

/// Whether `verdict` is what the tests say of `estimate`, each made only if those before it
/// passed.
pub open spec fn is_estimate_verdict(
    algorithm: EgoEstimatorAlgorithm,
    estimate: EgoStateEstimate,
    verdict: Result<(), EstimateError>,
) -> bool {
    let covariance = estimate.state_covariance@;
    let dimension = algorithm.state_dimension() as int;
    if estimate.pose_world is None {
        verdict == Err::<(), EstimateError>(EstimateError::NoPose)
    } else if estimate.pose_world->0.position is None {
        verdict == Err::<(), EstimateError>(EstimateError::NoPosition)
    } else if !state_is_finite(estimate) {
        verdict == Err::<(), EstimateError>(EstimateError::NonFiniteState)
    } else if covariance.len() != dimension * dimension {
        verdict matches Err(EstimateError::CovarianceSize { found, expected }) && found
            == covariance.len() && expected == dimension * dimension
    } else if !all_finite(covariance) {
        verdict == Err::<(), EstimateError>(EstimateError::NonFiniteCovariance)
    } else if !diagonal_is_nonnegative(covariance, dimension, dimension) {
        verdict matches Err(EstimateError::NegativeVariance { index }) && index < dimension
            && diagonal_is_nonnegative(covariance, dimension, index as int) && !diagonal_entry(
            covariance,
            dimension,
            index as int,
        ).is_nonnegative()
    } else if algorithm.estimates_imu_bias() && !has_finite(estimate.gyro_bias_z_radps) {
        verdict == Err::<(), EstimateError>(EstimateError::NoGyroBias)
    } else if algorithm.estimates_imu_bias() && !has_finite(estimate.accel_bias_x_mps2) {
        verdict == Err::<(), EstimateError>(EstimateError::NoAccelerometerBias)
    } else {
        verdict is Ok
    }
}

/// Whether an estimate is what `algorithm` declares: a finite pose and speed, a finite covariance
/// of the right size with variances of at least zero, and finite biases where it has them.
pub open spec fn estimate_is_valid(
    algorithm: EgoEstimatorAlgorithm,
    estimate: EgoStateEstimate,
) -> bool {
    let covariance = estimate.state_covariance@;
    let dimension = algorithm.state_dimension() as int;
    &&& estimate.pose_world is Some
    &&& estimate.pose_world->0.position is Some
    &&& state_is_finite(estimate)
    &&& covariance.len() == dimension * dimension
    &&& all_finite(covariance)
    &&& diagonal_is_nonnegative(covariance, dimension, dimension)
    &&& algorithm.estimates_imu_bias() ==> has_finite(estimate.gyro_bias_z_radps) && has_finite(
        estimate.accel_bias_x_mps2,
    )
}

fn are_finite(values: &Vec<Binary64>) -> (answer: bool)
    ensures
        answer == all_finite(values@),
{
    let mut index: usize = 0;
    while index < values.len()
        invariant
            index <= values.len(),
            forall|i: int| 0 <= i < index ==> (#[trigger] values@[i]).is_finite(),
        decreases values.len() - index,
    {
        if !values[index].is_finite() {
            assert(!values@[index as int].is_finite());
            return false;
        }
        index = index + 1;
    }
    true
}

fn first_negative_variance(covariance: &Vec<Binary64>, dimension: usize) -> (place: Option<usize>)
    requires
        dimension <= 6,
        covariance.len() == dimension * dimension,
    ensures
        match place {
            Some(index) => index < dimension && diagonal_is_nonnegative(
                covariance@,
                dimension as int,
                index as int,
            ) && !diagonal_entry(covariance@, dimension as int, index as int).is_nonnegative(),
            None => diagonal_is_nonnegative(covariance@, dimension as int, dimension as int),
        },
{
    let mut index: usize = 0;
    while index < dimension
        invariant
            index <= dimension <= 6,
            covariance.len() == dimension * dimension,
            diagonal_is_nonnegative(covariance@, dimension as int, index as int),
        decreases dimension - index,
    {
        assert(index * dimension + index < dimension * dimension) by (nonlinear_arith)
            requires
                0 <= index < dimension,
        ;
        assert(0 <= index * dimension <= 36) by (nonlinear_arith)
            requires
                0 <= index < dimension <= 6,
        ;
        let variance = covariance[index * dimension + index];
        assert(variance == diagonal_entry(covariance@, dimension as int, index as int));
        if !variance.is_nonnegative() {
            return Some(index);
        }
        index = index + 1;
    }
    None
}

/// Tests an estimate against what `algorithm` declares of its state.
pub fn validate_estimate(algorithm: EgoEstimatorAlgorithm, estimate: &EgoStateEstimate) -> (verdict:
    Result<(), EstimateError>)
    ensures
        is_estimate_verdict(algorithm, *estimate, verdict),
        verdict is Ok <==> estimate_is_valid(algorithm, *estimate),
{
    let pose = match estimate.pose_world {
        Some(pose) => pose,
        None => return Err(EstimateError::NoPose),
    };
    let position = match pose.position {
        Some(position) => position,
        None => return Err(EstimateError::NoPosition),
    };
    if !(position.x.is_finite() && position.y.is_finite() && pose.yaw_rad.is_finite()
        && estimate.forward_speed_mps.is_finite()) {
        return Err(EstimateError::NonFiniteState);
    }
    let covariance = &estimate.state_covariance;
    let dimension: usize = algorithm.state_dimension();
    let expected: usize = dimension * dimension;
    if covariance.len() != expected {
        return Err(EstimateError::CovarianceSize { found: covariance.len(), expected });
    }
    if !are_finite(covariance) {
        return Err(EstimateError::NonFiniteCovariance);
    }
    if let Some(index) = first_negative_variance(covariance, dimension) {
        return Err(EstimateError::NegativeVariance { index });
    }
    if algorithm.estimates_imu_bias() {
        match estimate.gyro_bias_z_radps {
            Some(bias) if bias.is_finite() => {},
            _ => return Err(EstimateError::NoGyroBias),
        }
        match estimate.accel_bias_x_mps2 {
            Some(bias) if bias.is_finite() => {},
            _ => return Err(EstimateError::NoAccelerometerBias),
        }
    }
    Ok(())
}

impl EstimateError {
    pub open spec fn spec_message(self) -> Seq<char> {
        match self {
            EstimateError::NoPose => "estimate has no pose"@,
            EstimateError::NoPosition => "estimate pose has no position"@,
            EstimateError::NonFiniteState => "estimate state contains a non-finite value"@,
            EstimateError::CovarianceSize { found, expected } => "estimate covariance has "@
                + decimal(found as nat) + " values; expected "@ + decimal(expected as nat),
            EstimateError::NonFiniteCovariance =>
                "estimate covariance contains a non-finite value"@,
            EstimateError::NegativeVariance { index } => "estimate covariance diagonal "@
                + decimal(index as nat) + " is negative"@,
            EstimateError::NoGyroBias => "estimate has no finite gyroscope bias"@,
            EstimateError::NoAccelerometerBias => "estimate has no finite accelerometer bias"@,
        }
    }

    /// The error in words.
    pub fn message(&self) -> (text: String)
        ensures
            text@ == self.spec_message(),
    {
        match *self {
            EstimateError::NoPose => "estimate has no pose".to_owned(),
            EstimateError::NoPosition => "estimate pose has no position".to_owned(),
            EstimateError::NonFiniteState =>
                "estimate state contains a non-finite value".to_owned(),
            EstimateError::CovarianceSize { found, expected } => {
                let mut text = "estimate covariance has ".to_owned();
                text.append(count_text(found).as_str());
                text.append(" values; expected ");
                text.append(count_text(expected).as_str());
                text
            },
            EstimateError::NonFiniteCovariance =>
                "estimate covariance contains a non-finite value".to_owned(),
            EstimateError::NegativeVariance { index } => {
                let mut text = "estimate covariance diagonal ".to_owned();
                text.append(count_text(index).as_str());
                text.append(" is negative");
                text
            },
            EstimateError::NoGyroBias => "estimate has no finite gyroscope bias".to_owned(),
            EstimateError::NoAccelerometerBias =>
                "estimate has no finite accelerometer bias".to_owned(),
        }
    }
}

} // verus!
