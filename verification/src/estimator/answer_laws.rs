//! What a run makes of the filter's answers, in terms of the answers alone.
use vstd::prelude::*;

use crate::binary64::{Binary64, ZERO};
use crate::messages::EgoStateEstimate;
use crate::scenario::{EgoEstimatorAlgorithm, EgoEstimatorConfig, ImuConfig};

use super::diagnostics::UpdateResult;
use super::estimate::{
    diagonal_entry, diagonal_is_nonnegative, is_estimate_verdict, EstimateError,
};
use super::measurement::{
    breaks_order_first, delivered_in_order, is_delivery_verdict, is_orderly, DeliveryError,
    EgoMeasurement,
};
use super::run::{
    delayed_count, discarded_count, ends_at, estimates_of, fixes_of, goes_on, is_filter_error,
    is_outcome, replayed_count, revised_count, scheduled_actions, stops, EgoSensor,
    EstimatorError, EstimatorRun, FilterReply,
};
use super::schedule::{count_below, FilterAction};
use super::settings::{
    ActiveEstimator, EstimatorAssumptions, EstimatorSettings, InitialVariances,
};
use super::timing::{
    are_successive, delivered_any, delivery_age, is_freshness, is_from, is_last_delivery,
    is_longest_silence, is_maximum_delivery_age, is_newest_stamp, saturated, silence,
    SensorFreshness,
};

verus! {

// GPS fixes.

pub open spec fn is_accepted_fix(reply: FilterReply) -> bool {
    reply matches FilterReply::Updated(result) && result is Applied
}

pub open spec fn is_rejected_fix(reply: FilterReply) -> bool {
    reply matches FilterReply::Updated(result) && result is Rejected
}

pub open spec fn is_invalid_fix(reply: FilterReply) -> bool {
    reply matches FilterReply::Updated(result) && result is Invalid
}

/// The residual that a filter reports of a fix that it did not find invalid.
pub open spec fn residual_of(reply: FilterReply) -> Option<Binary64> {
    match reply {
        FilterReply::Updated(UpdateResult::Applied { normalized_residual }) => Some(
            normalized_residual,
        ),
        FilterReply::Updated(UpdateResult::Rejected { normalized_residual }) => Some(
            normalized_residual,
        ),
        _ => None,
    }
}

proof fn lemma_fixes(replies: Seq<FilterReply>, count: int)
    requires
        0 <= count <= replies.len() <= usize::MAX,
    ensures
        ({
            let fixes = fixes_of(replies.take(count));
            &&& fixes.accepted_fixes == count_below(count, |i: int| is_accepted_fix(replies[i]))
            &&& fixes.rejected_fixes == count_below(count, |i: int| is_rejected_fix(replies[i]))
            &&& fixes.invalid_fixes == count_below(count, |i: int| is_invalid_fix(replies[i]))
            &&& fixes.attempted_fixes == count_below(count, |i: int| replies[i] is Updated)
            &&& fixes.attempted_fixes <= count
            &&& fixes.accepted_fixes <= count
            &&& fixes.rejected_fixes <= count
            &&& fixes.invalid_fixes <= count
            &&& !fixes.maximum_normalized_residual.is_nan()
            &&& fixes.maximum_normalized_residual.is_nonnegative()
            &&& forall|i: int|
                0 <= i < count && (residual_of(#[trigger] replies[i]) matches Some(residual)
                    && !residual.is_nan()) ==> residual_of(replies[i])->0.at_most(
                    fixes.maximum_normalized_residual,
                )
            &&& fixes.maximum_normalized_residual.bits == ZERO || exists|i: int|
                0 <= i < count && residual_of(#[trigger] replies[i]) == Some(
                    fixes.maximum_normalized_residual,
                )
        }),
    decreases count,
{
    if count > 0 {
        lemma_fixes(replies, count - 1);
        let taken = replies.take(count);
        assert(taken.drop_last() =~= replies.take(count - 1));
        assert(taken.last() == replies[count - 1]);
        let before = fixes_of(replies.take(count - 1)).maximum_normalized_residual;
        let now = fixes_of(taken).maximum_normalized_residual;
        assert(before.at_most(now));
        if now == before && before.bits != ZERO {
            let i = choose|i: int|
                0 <= i < count - 1 && residual_of(#[trigger] replies[i]) == Some(before);
            assert(residual_of(replies[i]) == Some(now));
        }
    } else {
        assert(replies.take(0) =~= Seq::empty());
    }
}

/// The account of GPS fixes counts what the filter did with each, and its largest residual is the
/// largest that the filter reported, of accepted and rejected fixes alike.
pub proof fn law_fixes_are_counted_by_what_became_of_them(replies: Seq<FilterReply>)
    requires
        replies.len() <= usize::MAX,
    ensures
        ({
            let fixes = fixes_of(replies);
            let count = replies.len() as int;
            let largest = fixes.maximum_normalized_residual;
            &&& fixes.attempted_fixes == count_below(count, |i: int| replies[i] is Updated)
            &&& fixes.accepted_fixes == count_below(count, |i: int| is_accepted_fix(replies[i]))
            &&& fixes.rejected_fixes == count_below(count, |i: int| is_rejected_fix(replies[i]))
            &&& fixes.invalid_fixes == count_below(count, |i: int| is_invalid_fix(replies[i]))
            &&& forall|i: int|
                0 <= i < count && (residual_of(#[trigger] replies[i]) matches Some(residual)
                    && !residual.is_nan()) ==> residual_of(replies[i])->0.at_most(largest)
            &&& largest.bits == ZERO || exists|i: int|
                0 <= i < count && residual_of(#[trigger] replies[i]) == Some(largest)
        }),
{
    lemma_fixes(replies, replies.len() as int);
    assert(replies.take(replies.len() as int) =~= replies);
}

// Estimates.

proof fn lemma_estimates(replies: Seq<FilterReply>, count: int, index: int)
    requires
        0 <= index < count <= replies.len(),
        replies[index] is Estimated,
    ensures
        ({
            let place = count_below(index, |i: int| replies[i] is Estimated) as int;
            let estimates = estimates_of(replies.take(count));
            &&& estimates.len() == count_below(count, |i: int| replies[i] is Estimated)
            &&& place < estimates.len()
            &&& FilterReply::Estimated(estimates[place]) == replies[index]
        }),
    decreases count,
{
    let taken = replies.take(count);
    assert(taken.drop_last() =~= replies.take(count - 1));
    assert(taken.last() == replies[count - 1]);
    lemma_number_of_estimates(replies, count);
    lemma_number_of_estimates(replies, count - 1);
    if index < count - 1 {
        lemma_estimates(replies, count - 1, index);
    }
}

proof fn lemma_number_of_estimates(replies: Seq<FilterReply>, count: int)
    requires
        0 <= count <= replies.len(),
    ensures
        estimates_of(replies.take(count)).len() == count_below(
            count,
            |i: int| replies[i] is Estimated,
        ),
    decreases count,
{
    if count > 0 {
        lemma_number_of_estimates(replies, count - 1);
        assert(replies.take(count).drop_last() =~= replies.take(count - 1));
        assert(replies.take(count).last() == replies[count - 1]);
    } else {
        assert(replies.take(0) =~= Seq::empty());
    }
}

/// The estimates of a run are those that the filter reported, unchanged and in the order in which
/// it reported them.
pub proof fn law_estimates_are_what_the_filter_reported(replies: Seq<FilterReply>, index: int)
    requires
        0 <= index < replies.len(),
        replies[index] is Estimated,
    ensures
        estimates_of(replies).len() == count_below(
            replies.len() as int,
            |i: int| replies[i] is Estimated,
        ),
        count_below(index, |i: int| replies[i] is Estimated) < estimates_of(replies).len(),
        FilterReply::Estimated(
            estimates_of(replies)[count_below(index, |i: int| replies[i] is Estimated) as int],
        ) == replies[index],
{
    lemma_estimates(replies, replies.len() as int, index);
    assert(replies.take(replies.len() as int) =~= replies);
}

// What an estimate has to be.

/// How many states a filter has.
pub open spec fn states_of(algorithm: EgoEstimatorAlgorithm) -> int {
    match algorithm {
        EgoEstimatorAlgorithm::Basic => 4,
        EgoEstimatorAlgorithm::ImuBias => 6,
        EgoEstimatorAlgorithm::GtsamEkfPlanar => 6,
    }
}

/// Whether a filter estimates the biases of the IMU.
pub open spec fn has_biases(algorithm: EgoEstimatorAlgorithm) -> bool {
    match algorithm {
        EgoEstimatorAlgorithm::Basic => false,
        EgoEstimatorAlgorithm::ImuBias => true,
        EgoEstimatorAlgorithm::GtsamEkfPlanar => true,
    }
}

/// Filters differ in how many states they have, and in whether biases are among them.
pub proof fn law_filters_have_their_states(algorithm: EgoEstimatorAlgorithm)
    ensures
        algorithm.state_dimension() == states_of(algorithm),
        algorithm.estimates_imu_bias() == has_biases(algorithm),
{
}

/// Whether the entry at `row` on the diagonal of the covariance is below zero or no number.
pub open spec fn is_bad_variance(
    algorithm: EgoEstimatorAlgorithm,
    estimate: EgoStateEstimate,
    row: int,
) -> bool {
    let zero = Binary64 { bits: ZERO };
    !zero.at_most(estimate.state_covariance@[row * states_of(algorithm) + row])
}

/// Whether an estimate has the fault that an error names.
pub open spec fn has_fault(
    algorithm: EgoEstimatorAlgorithm,
    estimate: EgoStateEstimate,
    error: EstimateError,
) -> bool {
    let covariance = estimate.state_covariance@;
    let size = states_of(algorithm) * states_of(algorithm);
    match error {
        EstimateError::NoPose => estimate.pose_world is None,
        EstimateError::NoPosition => estimate.pose_world is Some
            && estimate.pose_world->0.position is None,
        EstimateError::NonFiniteState => estimate.pose_world is Some
            && estimate.pose_world->0.position is Some && !(
        estimate.pose_world->0.position->0.x.is_finite()
            && estimate.pose_world->0.position->0.y.is_finite()
            && estimate.pose_world->0.yaw_rad.is_finite()
            && estimate.forward_speed_mps.is_finite()),
        EstimateError::CovarianceSize { found, expected } => covariance.len() != size && found
            == covariance.len() && expected == size,
        EstimateError::NonFiniteCovariance => exists|i: int|
            0 <= i < covariance.len() && !(#[trigger] covariance[i]).is_finite(),
        EstimateError::NegativeVariance { index } => covariance.len() == size && 0 <= index
            < states_of(algorithm) && is_bad_variance(algorithm, estimate, index as int),
        EstimateError::NoGyroBias => has_biases(algorithm) && !(
        estimate.gyro_bias_z_radps matches Some(bias) && bias.is_finite()),
        EstimateError::NoAccelerometerBias => has_biases(algorithm) && !(
        estimate.accel_bias_x_mps2 matches Some(bias) && bias.is_finite()),
    }
}

/// The order in which faults are looked for.
pub open spec fn fault_rank(error: EstimateError) -> int {
    match error {
        EstimateError::NoPose => 0,
        EstimateError::NoPosition => 1,
        EstimateError::NonFiniteState => 2,
        EstimateError::CovarianceSize { .. } => 3,
        EstimateError::NonFiniteCovariance => 4,
        EstimateError::NegativeVariance { index } => 5 + index,
        EstimateError::NoGyroBias => 11,
        EstimateError::NoAccelerometerBias => 12,
    }
}

/// An estimate is refused exactly for a fault that it has, and for the first of its faults.
pub proof fn law_estimates_are_refused_for_their_first_fault(
    algorithm: EgoEstimatorAlgorithm,
    estimate: EgoStateEstimate,
    verdict: Result<(), EstimateError>,
    other: EstimateError,
)
    requires
        is_estimate_verdict(algorithm, estimate, verdict),
    ensures
        verdict matches Err(error) ==> has_fault(algorithm, estimate, error),
        has_fault(algorithm, estimate, other) ==> (verdict matches Err(error) && fault_rank(error)
            <= fault_rank(other)),
{
    let dimension = states_of(algorithm);
    let covariance = estimate.state_covariance@;
    law_filters_have_their_states(algorithm);
    assert forall|row: int| #[trigger] diagonal_entry(covariance, dimension, row)
        == covariance[row * dimension + row] by {
    }
    if let EstimateError::NegativeVariance { index } = other {
        assert(diagonal_entry(covariance, dimension, index as int) == covariance[index as int
            * dimension + index as int]);
        if let Err(EstimateError::NegativeVariance { index: found }) = verdict {
            if index < found {
                assert(diagonal_is_nonnegative(covariance, dimension, found as int));
                assert(diagonal_entry(covariance, dimension, index as int).is_nonnegative());
            }
        }
    }
    if let EstimateError::NonFiniteCovariance = other {
        if has_fault(algorithm, estimate, other) {
            let i = choose|i: int|
                0 <= i < covariance.len() && !(#[trigger] covariance[i]).is_finite();
            assert(!covariance[i].is_finite());
        }
    }
}

// The order of deliveries.

/// A stream is accepted if and only if nothing arrives before it was measured and no delivery
/// arrives before an earlier one.
pub proof fn law_accepted_streams_are_in_order(
    measurements: Seq<EgoMeasurement>,
    verdict: Result<(), DeliveryError>,
)
    requires
        is_delivery_verdict(measurements, verdict),
    ensures
        verdict is Ok <==> (forall|i: int|
            0 <= i < measurements.len() ==> (#[trigger] measurements[i]).stamp()
                <= measurements[i].arrival()) && (forall|i: int, j: int|
            0 <= i < j < measurements.len() ==> (#[trigger] measurements[i]).arrival() <= (
            #[trigger] measurements[j]).arrival()),
{
    let count = measurements.len() as int;
    if verdict is Ok {
        assert forall|i: int| 0 <= i < count implies (#[trigger] measurements[i]).stamp()
            <= measurements[i].arrival() by {
            assert(is_orderly(measurements, i));
        }
        assert forall|i: int, j: int| 0 <= i < j < count implies (
        #[trigger] measurements[i]).arrival() <= (#[trigger] measurements[j]).arrival() by {
            super::measurement::law_arrivals_ascend(measurements, i, j);
        }
    } else {
        let i = choose|i: int| #[trigger] breaks_order_first(measurements, i);
        assert(!is_orderly(measurements, i));
        if measurements[i].stamp() <= measurements[i].arrival() {
            assert(measurements[i].arrival() < measurements[i - 1].arrival());
        }
    }
}

/// A stream is refused because a delivery arrives before it was measured or before the one ahead
/// of it; all before that delivery are in order, and the first of the two reasons counts.
pub proof fn law_refused_streams_break_the_order(
    measurements: Seq<EgoMeasurement>,
    error: DeliveryError,
)
    requires
        is_delivery_verdict(measurements, Err(error)),
    ensures
        exists|i: int|
            #![trigger measurements[i]]
            {
                &&& 0 <= i < measurements.len()
                &&& delivered_in_order(measurements, i)
                &&& error == DeliveryError::ArrivesBeforeMeasured <==> measurements[i].arrival()
                    < measurements[i].stamp()
                &&& error == DeliveryError::OutOfOrder ==> i > 0 && measurements[i].arrival()
                    < measurements[i - 1].arrival()
            },
{
    let i = choose|i: int| #[trigger]
        breaks_order_first(measurements, i) && error == (if super::measurement::was_measured_first(
            measurements,
            i,
        ) {
            DeliveryError::OutOfOrder
        } else {
            DeliveryError::ArrivesBeforeMeasured
        });
    assert(error == DeliveryError::OutOfOrder ==> measurements[i].arrival() < measurements[i
        - 1].arrival());
}

// Settings.

/// A filter is set up with the variances and the GPS gating that are configured for it, and with
/// the noise of the IMU. The biases walk only in a filter that estimates them.
pub proof fn law_settings_are_what_is_configured(
    config: EgoEstimatorConfig,
    imu: ImuConfig,
    variances: InitialVariances,
)
    ensures
        ({
            let settings = EstimatorSettings::spec_resolve(config, imu, variances);
            let noise = settings.imu_process_noise;
            &&& settings.initial_position_variance_m2 == variances.position_m2
            &&& settings.initial_yaw_variance_rad2 == variances.yaw_rad2
            &&& settings.initial_speed_variance_m2ps2 == variances.speed_m2ps2
            &&& settings.initial_gyro_bias_variance_rad2ps2 == variances.gyro_bias_rad2ps2
            &&& settings.initial_accel_bias_variance_m2ps4 == variances.accel_bias_m2ps4
            &&& settings.gps_gate_sigma == config.gps_gate_sigma
            &&& noise.gyro_white_noise_density_radps_sqrt_hz
                == imu.gyro_white_noise_density_radps_sqrt_hz
            &&& noise.accel_white_noise_density_mps2_sqrt_hz
                == imu.accel_white_noise_density_mps2_sqrt_hz
            &&& has_biases(config.algorithm) ==> noise.gyro_bias_random_walk_radps_sqrt_s
                == imu.gyro_bias_random_walk_radps_sqrt_s
                && noise.accel_bias_random_walk_mps2_sqrt_s
                == imu.accel_bias_random_walk_mps2_sqrt_s
            &&& !has_biases(config.algorithm) ==> noise.gyro_bias_random_walk_radps_sqrt_s.bits
                == ZERO && noise.accel_bias_random_walk_mps2_sqrt_s.bits == ZERO
        }),
{
}

/// What a run says of its filter is what the filter says of itself, and what it was set up with.
/// Only GTSAM has a version, and only its initial variances come from the settings.
pub proof fn law_assumptions_repeat_the_filter(
    filter: ActiveEstimator,
    algorithm: EgoEstimatorAlgorithm,
    settings: EstimatorSettings,
    assumptions: EstimatorAssumptions,
)
    requires
        filter.are_assumptions(algorithm, settings, assumptions),
    ensures
        assumptions.algorithm == algorithm,
        assumptions.imu_process_noise == settings.imu_process_noise,
        assumptions.gps_gate_sigma == settings.gps_gate_sigma,
        match filter {
            ActiveEstimator::Basic { state_names, covariance_diagonal } => {
                &&& assumptions.state_order@ == state_names@
                &&& assumptions.initial_covariance_diagonal@ == covariance_diagonal@
                &&& assumptions.backend_version is None
            },
            ActiveEstimator::ImuBias { state_names, covariance_diagonal } => {
                &&& assumptions.state_order@ == state_names@
                &&& assumptions.initial_covariance_diagonal@ == covariance_diagonal@
                &&& assumptions.backend_version is None
            },
            ActiveEstimator::GtsamEkfPlanar { state_names, version } => {
                &&& assumptions.state_order@ == state_names@
                &&& assumptions.backend_version matches Some(text) && text@ == "GTSAM "@ + version@
                &&& assumptions.initial_covariance_diagonal.len() == 6
                &&& assumptions.initial_covariance_diagonal@[0]
                    == settings.initial_position_variance_m2
                &&& assumptions.initial_covariance_diagonal@[1]
                    == settings.initial_position_variance_m2
                &&& assumptions.initial_covariance_diagonal@[2]
                    == settings.initial_yaw_variance_rad2
                &&& assumptions.initial_covariance_diagonal@[3]
                    == settings.initial_speed_variance_m2ps2
                &&& assumptions.initial_covariance_diagonal@[4]
                    == settings.initial_gyro_bias_variance_rad2ps2
                &&& assumptions.initial_covariance_diagonal@[5]
                    == settings.initial_accel_bias_variance_m2ps4
            },
        },
{
}

/// A filter runs an algorithm if it is that algorithm's and names each of its states. The two that
/// are built in also start from a variance for each.
pub proof fn law_filters_run_their_own_algorithm(
    filter: ActiveEstimator,
    algorithm: EgoEstimatorAlgorithm,
)
    ensures
        filter.spec_runs(algorithm) <==> match filter {
            ActiveEstimator::Basic { state_names, covariance_diagonal } => algorithm
                == EgoEstimatorAlgorithm::Basic && state_names.len() == 4
                && covariance_diagonal.len() == 4,
            ActiveEstimator::ImuBias { state_names, covariance_diagonal } => algorithm
                == EgoEstimatorAlgorithm::ImuBias && state_names.len() == 6
                && covariance_diagonal.len() == 6,
            ActiveEstimator::GtsamEkfPlanar { state_names, .. } => algorithm
                == EgoEstimatorAlgorithm::GtsamEkfPlanar && state_names.len() == 6,
        },
{
}

// Runs.

/// A run that succeeds tells how it treated its deliveries: how many there were, how many came
/// late, and what became of those, as scheduled; when the last arrived, and how long the slowest
/// took.
pub proof fn law_a_run_tells_how_it_treated_deliveries(
    config: EgoEstimatorConfig,
    settings: EstimatorSettings,
    measurements: Seq<EgoMeasurement>,
    filter: ActiveEstimator,
    replies: Seq<FilterReply>,
    run: EstimatorRun,
)
    requires
        is_outcome(config, settings, measurements, Some(filter), replies, Ok(run)),
    ensures
        run.estimates@ == estimates_of(replies),
        run.gps_diagnostics == fixes_of(replies),
        run.timing.timing_compensation == config.timing_compensation,
        run.timing.history_duration_ns == config.history_duration_ns,
        run.timing.received_measurements == measurements.len(),
        run.timing.delayed_measurements == delayed_count(config, measurements),
        run.timing.replayed_measurements == replayed_count(config, measurements),
        run.timing.discarded_measurements == discarded_count(config, measurements),
        run.timing.revised_estimates == revised_count(config, measurements),
        measurements.len() == 0 ==> run.timing.freshness_observed_at_ns is None
            && run.timing.maximum_delivery_age_ns == 0,
        measurements.len() > 0 ==> run.timing.freshness_observed_at_ns is Some
            && run.timing.freshness_observed_at_ns->0 == measurements[measurements.len()
            - 1].arrival(),
        forall|i: int|
            0 <= i < measurements.len() ==> saturated(
                (#[trigger] measurements[i]).arrival() - measurements[i].stamp(),
            ) <= run.timing.maximum_delivery_age_ns,
        measurements.len() > 0 ==> exists|i: int|
            0 <= i < measurements.len() && saturated(
                (#[trigger] measurements[i]).arrival() - measurements[i].stamp(),
            ) == run.timing.maximum_delivery_age_ns,
        is_freshness(measurements, true, run.timing.gps_freshness),
        is_freshness(measurements, false, run.timing.imu_freshness),
        filter.are_assumptions(config.algorithm, settings, run.assumptions),
{
    let age = run.timing.maximum_delivery_age_ns as int;
    assert(is_maximum_delivery_age(measurements, age));
    assert forall|i: int| 0 <= i < measurements.len() implies saturated(
        (#[trigger] measurements[i]).arrival() - measurements[i].stamp(),
    ) <= age by {
        assert(delivery_age(measurements, i) <= age);
    }
    if measurements.len() > 0 {
        let i = choose|i: int|
            0 <= i < measurements.len() && #[trigger] delivery_age(measurements, i) == age;
        assert(saturated(measurements[i].arrival() - measurements[i].stamp()) == age);
    }
}

/// A run succeeds if and only if the deliveries are in order, the filter could be set up, it never
/// failed, and every estimate that it reported is without fault.
pub proof fn law_a_run_succeeds_without_faults(
    config: EgoEstimatorConfig,
    settings: EstimatorSettings,
    measurements: Seq<EgoMeasurement>,
    filter: Option<ActiveEstimator>,
    replies: Seq<FilterReply>,
    outcome: Result<EstimatorRun, EstimatorError>,
)
    requires
        is_outcome(config, settings, measurements, filter, replies, outcome),
    ensures
        outcome is Ok <==> {
            &&& delivered_in_order(measurements, measurements.len() as int)
            &&& filter is Some
            &&& forall|i: int| 0 <= i < replies.len() ==> !((#[trigger] replies[i]) is Failed)
            &&& forall|i: int|
                0 <= i < replies.len() && (#[trigger] replies[i]) is Estimated
                    ==> is_estimate_verdict(config.algorithm, replies[i]->Estimated_0, Ok(()))
        },
{
    let algorithm = config.algorithm;
    if outcome is Ok {
        assert forall|i: int| 0 <= i < replies.len() implies !((#[trigger] replies[i]) is Failed)
            && (replies[i] is Estimated ==> is_estimate_verdict(
            algorithm,
            replies[i]->Estimated_0,
            Ok(()),
        )) by {
            assert(!stops(algorithm, replies[i]));
        }
    } else if delivered_in_order(measurements, measurements.len() as int) && filter is Some {
        let k = choose|k: int| 0 <= k < replies.len() && stops(algorithm, #[trigger] replies[k]);
        assert(stops(algorithm, replies[k]));
        if replies[k] is Estimated {
            assert(!is_estimate_verdict(algorithm, replies[k]->Estimated_0, Ok(())));
        }
    }
}

/// The delivery that a request is about.
pub open spec fn about(action: FilterAction) -> int {
    match action {
        FilterAction::Propagate { measurement } => measurement as int,
        FilterAction::UpdateGps { measurement } => measurement as int,
        FilterAction::Estimate { measurement, .. } => measurement as int,
    }
}

/// A run fails for the first thing that is wrong: the order of deliveries, then a filter that
/// could not be set up, then the first answer that ends it. It then names the filter that was
/// configured, the delivery that the answer was about, and the sensor that this was from; and what
/// is wrong with an estimate, if the filter reported one.
pub proof fn law_a_run_fails_for_the_first_fault(
    config: EgoEstimatorConfig,
    settings: EstimatorSettings,
    measurements: Seq<EgoMeasurement>,
    filter: Option<ActiveEstimator>,
    replies: Seq<FilterReply>,
    error: EstimatorError,
)
    requires
        is_outcome(config, settings, measurements, filter, replies, Err(error)),
    ensures
        !delivered_in_order(measurements, measurements.len() as int) <==> error is Delivery,
        error is Construction <==> delivered_in_order(measurements, measurements.len() as int)
            && filter is None,
        error matches EstimatorError::Construction { algorithm } ==> algorithm == config.algorithm,
        !(error is Delivery) && !(error is Construction) ==> exists|k: int|
            #![trigger replies[k]]
            0 <= k < replies.len() && {
                let action = scheduled_actions(config, measurements)[k];
                let time = measurements[about(action)].optional_time();
                &&& goes_on(config.algorithm, replies, k)
                &&& stops(config.algorithm, replies[k])
                &&& match error {
                    EstimatorError::Filter { algorithm, sensor, time: named } => {
                        &&& !(replies[k] is Estimated)
                        &&& algorithm == config.algorithm
                        &&& sensor == EgoSensor::Gps <==> action is UpdateGps
                        &&& Some(named) == time
                    },
                    EstimatorError::Estimate { algorithm, time: named, error: fault } => {
                        &&& algorithm == config.algorithm
                        &&& Some(named) == time
                        &&& replies[k] matches FilterReply::Estimated(estimate)
                            && is_estimate_verdict(config.algorithm, estimate, Err(fault))
                    },
                    _ => false,
                }
            },
{
    if delivered_in_order(measurements, measurements.len() as int) && filter is Some {
        let k = choose|k: int| #[trigger]
            ends_at(config.algorithm, replies, k) && is_filter_error(
                config,
                measurements,
                replies,
                k,
                error,
            );
        assert(stops(config.algorithm, replies[k]));
    }
}

/// An answer ends a run if the filter failed, or if it reported what has a fault.
pub proof fn law_what_ends_a_run(
    algorithm: EgoEstimatorAlgorithm,
    reply: FilterReply,
    verdict: Result<(), EstimateError>,
)
    requires
        reply matches FilterReply::Estimated(estimate) ==> is_estimate_verdict(
            algorithm,
            estimate,
            verdict,
        ),
    ensures
        stops(algorithm, reply) <==> reply is Failed || (reply is Estimated && verdict is Err),
{
}

// Freshness.

/// Differences of times are exact as long as they fit 64 bits, and the nearest that fits
/// otherwise.
pub proof fn law_differences_saturate(a: i64, b: i64)
    ensures
        i64::MIN <= saturated(a - b) <= i64::MAX,
        i64::MIN <= a - b <= i64::MAX ==> saturated(a - b) == a - b,
        a - b > i64::MAX ==> saturated(a - b) == i64::MAX,
        a - b < i64::MIN ==> saturated(a - b) == i64::MIN,
{
}

/// Whether the delivery at `index` is the sensor's: GPS or IMU.
pub open spec fn is_sensors(measurements: Seq<EgoMeasurement>, gps: bool, index: int) -> bool {
    if gps {
        measurements[index] is Gps
    } else {
        measurements[index] is Imu
    }
}

/// A sensor that delivered nothing has no ages. One that delivered has them, at the last arrival
/// of the stream: since its own last delivery, since the newest of its measurements, and the
/// longest that it was ever silent, between two of its deliveries or at the end.
pub proof fn law_freshness_tells_the_ages(
    measurements: Seq<EgoMeasurement>,
    gps: bool,
    freshness: SensorFreshness,
)
    requires
        is_freshness(measurements, gps, freshness),
    ensures
        ({
            let count = measurements.len() as int;
            let now = measurements[count - 1].arrival();
            let delivered = exists|i: int|
                0 <= i < count && #[trigger] is_sensors(measurements, gps, i);
            &&& !delivered ==> freshness.final_receipt_age_ns is None
                && freshness.final_measurement_age_ns is None && freshness.maximum_receipt_gap_ns
                is None
            &&& delivered ==> {
                &&& freshness.final_receipt_age_ns matches Some(receipt)
                &&& freshness.final_measurement_age_ns matches Some(age)
                &&& freshness.maximum_receipt_gap_ns matches Some(gap)
                &&& exists|last: int|
                    0 <= last < count && #[trigger] is_sensors(measurements, gps, last)
                        && receipt == saturated(now - measurements[last].arrival()) && forall|
                        i: int,
                    |
                        last < i < count ==> !#[trigger] is_sensors(measurements, gps, i)
                &&& forall|i: int|
                    0 <= i < count && #[trigger] is_sensors(measurements, gps, i) ==> age
                        <= saturated(now - measurements[i].stamp())
                &&& exists|i: int|
                    0 <= i < count && #[trigger] is_sensors(measurements, gps, i) && age
                        == saturated(now - measurements[i].stamp())
                &&& gap >= receipt
                &&& gap >= 0
                &&& forall|i: int, j: int|
                    0 <= i < j < count && #[trigger] is_sensors(measurements, gps, i)
                        && #[trigger] is_sensors(measurements, gps, j) && (forall|k: int|
                        i < k < j ==> !#[trigger] is_sensors(measurements, gps, k)) ==> saturated(
                        measurements[j].arrival() - measurements[i].arrival(),
                    ) <= gap
                &&& gap == receipt || gap == 0 || exists|i: int, j: int|
                    0 <= i < j < count && #[trigger] is_sensors(measurements, gps, i)
                        && #[trigger] is_sensors(measurements, gps, j) && (forall|k: int|
                        i < k < j ==> !#[trigger] is_sensors(measurements, gps, k)) && saturated(
                        measurements[j].arrival() - measurements[i].arrival(),
                    ) == gap
            }
        }),
{
    let count = measurements.len() as int;
    assert forall|i: int| #[trigger] is_sensors(measurements, gps, i) == is_from(
        measurements,
        gps,
        i,
    ) by {
    }
    assert forall|i: int| #[trigger] is_from(measurements, gps, i) == is_sensors(
        measurements,
        gps,
        i,
    ) by {
    }
    if delivered_any(measurements, gps, count) {
        let now = measurements[count - 1].arrival();
        let receipt = freshness.final_receipt_age_ns->0;
        let age = freshness.final_measurement_age_ns->0;
        let gap = freshness.maximum_receipt_gap_ns->0;
        let some = choose|i: int| 0 <= i < count && #[trigger] is_from(measurements, gps, i);
        assert(is_sensors(measurements, gps, some));
        let last = choose|last: int| #[trigger]
            is_last_delivery(measurements, gps, count, last) && receipt == saturated(
                now - measurements[last].arrival(),
            );
        assert(is_sensors(measurements, gps, last));
        let stamp = choose|stamp: int| #[trigger]
            is_newest_stamp(measurements, gps, count, stamp) && age == saturated(now - stamp);
        let newest = choose|i: int|
            0 <= i < count && #[trigger] is_from(measurements, gps, i) && measurements[i].stamp()
                == stamp;
        assert(is_sensors(measurements, gps, newest));
        let longest = choose|longest: int| #[trigger]
            is_longest_silence(measurements, gps, count, longest) && gap == (if longest
                >= receipt {
                longest
            } else {
                receipt as int
            });
        assert forall|i: int, j: int|
            0 <= i < j < count && #[trigger] is_sensors(measurements, gps, i)
                && #[trigger] is_sensors(measurements, gps, j) && (forall|k: int|
                i < k < j ==> !#[trigger] is_sensors(measurements, gps, k)) implies saturated(
            measurements[j].arrival() - measurements[i].arrival(),
        ) <= gap by {
            assert(are_successive(measurements, gps, i, j));
            assert(silence(measurements, i, j) <= longest);
        }
        if gap != receipt && gap != 0 {
            let (i, j) = choose|i: int, j: int|
                j < count && #[trigger] are_successive(measurements, gps, i, j) && silence(
                    measurements,
                    i,
                    j,
                ) == longest;
            assert(is_sensors(measurements, gps, i) && is_sensors(measurements, gps, j));
        }
    } else if exists|i: int| 0 <= i < count && #[trigger] is_sensors(measurements, gps, i) {
        let i = choose|i: int| 0 <= i < count && #[trigger] is_sensors(measurements, gps, i);
        assert(is_from(measurements, gps, i));
    }
}

} // verus!
