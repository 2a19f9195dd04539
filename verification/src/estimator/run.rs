//! A run of a filter: what it was asked, what it answered, and what follows.
use vstd::prelude::*;

use crate::messages::{EgoStateEstimate, MeasurementTime};
use crate::scenario::{EgoEstimatorAlgorithm, EgoEstimatorConfig, ImuConfig};
use crate::text::{signed_decimal, signed_text};

use super::diagnostics::{GpsDiagnostics, UpdateResult};
use super::estimate::{estimate_is_valid, is_estimate_verdict, validate_estimate, EstimateError};
use super::measurement::{
    all_timed, delivered_in_order, is_delivery_verdict, validate_delivery_order, DeliveryError,
    EgoMeasurement,
};
use super::schedule::{
    arrival_actions, count_below, is_discarded, is_older_than_last_imu, is_replayed, is_revised,
    lags, measurement_order, ordered_actions, schedule_at_arrival, schedule_at_measurement_time,
    FilterAction, Schedule,
};
use super::schedule_laws::law_requests_are_about_deliveries;
use super::settings::{
    ActiveEstimator, EstimatorAssumptions, EstimatorSettings, InitialVariances,
};
use super::timing::{is_timing, timing, TimingDiagnostics};

verus! {

/// What a filter answers to one request.
#[derive(Debug)]
pub enum FilterReply {
    Propagated,
    Updated(UpdateResult),
    Estimated(EgoStateEstimate),
    Failed,
}

#[derive(Debug)]
pub struct EstimatorRun {
    pub estimates: Vec<EgoStateEstimate>,
    pub timing: TimingDiagnostics,
    pub gps_diagnostics: GpsDiagnostics,
    pub assumptions: EstimatorAssumptions,
}

#[derive(Debug, Clone, Copy, PartialEq, Eq, Structural)]
pub enum EgoSensor {
    Imu,
    Gps,
}

/// Why a run gives no result.
#[derive(Debug, Clone, Copy, PartialEq, Eq, Structural)]
pub enum EstimatorError {
    /// The deliveries are out of order.
    Delivery(DeliveryError),
    /// The filter could not be set up.
    Construction { algorithm: EgoEstimatorAlgorithm },
    /// The filter failed on a delivery.
    Filter { algorithm: EgoEstimatorAlgorithm, sensor: EgoSensor, time: MeasurementTime },
    /// The filter reported what is no estimate.
    Estimate { algorithm: EgoEstimatorAlgorithm, time: MeasurementTime, error: EstimateError },
}

// The requests.

/// What the filter is asked to do with a stream.
pub open spec fn scheduled_actions(
    config: EgoEstimatorConfig,
    measurements: Seq<EgoMeasurement>,
) -> Seq<FilterAction> {
    if config.timing_compensation {
        let order = measurement_order(config.history_duration_ns as int, measurements);
        ordered_actions(measurements, order, order.len() as int)
    } else {
        arrival_actions(measurements, measurements.len() as int)
    }
}

/// How many deliveries come late.
pub open spec fn delayed_count(
    config: EgoEstimatorConfig,
    measurements: Seq<EgoMeasurement>,
) -> nat {
    let count = measurements.len() as int;
    if config.timing_compensation {
        count_below(count, |i: int| lags(measurements, i))
    } else {
        count_below(count, |i: int| is_older_than_last_imu(measurements, i))
    }
}

/// How many late deliveries are put back in their place.
pub open spec fn replayed_count(
    config: EgoEstimatorConfig,
    measurements: Seq<EgoMeasurement>,
) -> nat {
    if config.timing_compensation {
        count_below(
            measurements.len() as int,
            |i: int| is_replayed(config.history_duration_ns as int, measurements, i),
        )
    } else {
        0
    }
}

/// How many late deliveries are left out.
pub open spec fn discarded_count(
    config: EgoEstimatorConfig,
    measurements: Seq<EgoMeasurement>,
) -> nat {
    if config.timing_compensation {
        count_below(
            measurements.len() as int,
            |i: int| is_discarded(config.history_duration_ns as int, measurements, i),
        )
    } else {
        0
    }
}

/// How many estimates wait for a late GPS fix.
pub open spec fn revised_count(
    config: EgoEstimatorConfig,
    measurements: Seq<EgoMeasurement>,
) -> nat {
    if config.timing_compensation {
        let order = measurement_order(config.history_duration_ns as int, measurements);
        count_below(order.len() as int, |place: int| is_revised(measurements, order, place))
    } else {
        0
    }
}

/// Fixes what the filter is asked: in the order of measurement where the configuration
/// compensates for delays, else in the order of arrival.
pub fn schedule(config: &EgoEstimatorConfig, measurements: &[EgoMeasurement]) -> (schedule:
    Schedule)
    requires
        all_timed(measurements@),
    ensures
        schedule.actions@ == scheduled_actions(*config, measurements@),
        schedule.delayed_measurements == delayed_count(*config, measurements@),
        schedule.replayed_measurements == replayed_count(*config, measurements@),
        schedule.discarded_measurements == discarded_count(*config, measurements@),
        schedule.revised_estimates == revised_count(*config, measurements@),
{
    if config.timing_compensation {
        schedule_at_measurement_time(config, measurements)
    } else {
        schedule_at_arrival(measurements)
    }
}

// The answers.

/// Whether `reply` can answer `action`. An estimate is for the times that were asked.
pub open spec fn answers(action: FilterAction, reply: FilterReply) -> bool {
    match reply {
        FilterReply::Propagated => action is Propagate,
        FilterReply::Updated(_) => action is UpdateGps,
        FilterReply::Estimated(estimate) => action matches FilterAction::Estimate {
            estimate_time_ns,
            available_time_ns,
            ..
        } && estimate.estimate_time_ns == estimate_time_ns && estimate.available_time_ns
            == available_time_ns,
        FilterReply::Failed => true,
    }
}

/// Whether no request follows `reply`.
pub open spec fn stops(algorithm: EgoEstimatorAlgorithm, reply: FilterReply) -> bool {
    match reply {
        FilterReply::Failed => true,
        FilterReply::Estimated(estimate) => !estimate_is_valid(algorithm, estimate),
        _ => false,
    }
}

/// Whether none of the first `count` replies ends the run.
pub open spec fn goes_on(
    algorithm: EgoEstimatorAlgorithm,
    replies: Seq<FilterReply>,
    count: int,
) -> bool {
    forall|i: int| 0 <= i < count ==> !stops(algorithm, #[trigger] replies[i])
}

/// Whether the run ends at the reply at `index`.
pub open spec fn ends_at(
    algorithm: EgoEstimatorAlgorithm,
    replies: Seq<FilterReply>,
    index: int,
) -> bool {
    &&& 0 <= index < replies.len()
    &&& goes_on(algorithm, replies, index)
    &&& stops(algorithm, replies[index])
}

/// Whether `replies` answers `actions` in turn, all of them or as far as the run went.
pub open spec fn is_transcript(
    algorithm: EgoEstimatorAlgorithm,
    actions: Seq<FilterAction>,
    replies: Seq<FilterReply>,
) -> bool {
    &&& replies.len() <= actions.len()
    &&& forall|i: int| 0 <= i < replies.len() ==> answers(actions[i], #[trigger] replies[i])
    &&& goes_on(algorithm, replies, replies.len() as int) ==> replies.len() == actions.len()
}

/// The estimates among the replies.
pub open spec fn estimates_of(replies: Seq<FilterReply>) -> Seq<EgoStateEstimate>
    decreases replies.len(),
{
    if replies.len() == 0 {
        Seq::empty()
    } else {
        match replies.last() {
            FilterReply::Estimated(estimate) => estimates_of(replies.drop_last()).push(estimate),
            _ => estimates_of(replies.drop_last()),
        }
    }
}

/// What the replies say of GPS fixes.
pub open spec fn fixes_of(replies: Seq<FilterReply>) -> GpsDiagnostics
    decreases replies.len(),
{
    if replies.len() == 0 {
        GpsDiagnostics::none()
    } else {
        match replies.last() {
            FilterReply::Updated(result) => fixes_of(replies.drop_last()).with(result),
            _ => fixes_of(replies.drop_last()),
        }
    }
}

/// The delivery that a request is about.
pub open spec fn subject(action: FilterAction) -> int {
    match action {
        FilterAction::Propagate { measurement } => measurement as int,
        FilterAction::UpdateGps { measurement } => measurement as int,
        FilterAction::Estimate { measurement, .. } => measurement as int,
    }
}

/// The sensor that a request is about.
pub open spec fn sensor_of(action: FilterAction) -> EgoSensor {
    match action {
        FilterAction::UpdateGps { .. } => EgoSensor::Gps,
        _ => EgoSensor::Imu,
    }
}

/// Whether `error` is what the reply at `index`, which ends the run, amounts to.
pub open spec fn is_filter_error(
    config: EgoEstimatorConfig,
    measurements: Seq<EgoMeasurement>,
    replies: Seq<FilterReply>,
    index: int,
    error: EstimatorError,
) -> bool {
    let action = scheduled_actions(config, measurements)[index];
    let occasion = measurements[subject(action)].optional_time();
    match replies[index] {
        FilterReply::Estimated(estimate) => error matches EstimatorError::Estimate {
            algorithm,
            time,
            error,
        } && algorithm == config.algorithm && Some(time) == occasion && is_estimate_verdict(
            config.algorithm,
            estimate,
            Err(error),
        ),
        _ => error matches EstimatorError::Filter { algorithm, sensor, time } && algorithm
            == config.algorithm && sensor == sensor_of(action) && Some(time) == occasion,
    }
}

/// Whether `run` is what a filter's full set of replies amounts to.
pub open spec fn is_result(
    config: EgoEstimatorConfig,
    settings: EstimatorSettings,
    measurements: Seq<EgoMeasurement>,
    filter: ActiveEstimator,
    replies: Seq<FilterReply>,
    run: EstimatorRun,
) -> bool {
    &&& run.estimates@ == estimates_of(replies)
    &&& run.gps_diagnostics == fixes_of(replies)
    &&& is_timing(
        config,
        measurements,
        delayed_count(config, measurements) as int,
        replayed_count(config, measurements) as int,
        discarded_count(config, measurements) as int,
        revised_count(config, measurements) as int,
        run.timing,
    )
    &&& filter.are_assumptions(config.algorithm, settings, run.assumptions)
}

/// Whether `outcome` is what a run comes to: the order of deliveries is tested first, then the
/// filter is set up, then its replies are taken in turn.
pub open spec fn is_outcome(
    config: EgoEstimatorConfig,
    settings: EstimatorSettings,
    measurements: Seq<EgoMeasurement>,
    filter: Option<ActiveEstimator>,
    replies: Seq<FilterReply>,
    outcome: Result<EstimatorRun, EstimatorError>,
) -> bool {
    if !delivered_in_order(measurements, measurements.len() as int) {
        outcome matches Err(EstimatorError::Delivery(error)) && is_delivery_verdict(
            measurements,
            Err(error),
        )
    } else if filter is None {
        outcome matches Err(EstimatorError::Construction { algorithm }) && algorithm
            == config.algorithm
    } else if goes_on(config.algorithm, replies, replies.len() as int) {
        outcome matches Ok(run) && is_result(
            config,
            settings,
            measurements,
            filter->0,
            replies,
            run,
        )
    } else {
        outcome matches Err(error) && exists|index: int| #[trigger]
            ends_at(config.algorithm, replies, index) && is_filter_error(
                config,
                measurements,
                replies,
                index,
                error,
            )
    }
}

/// The first reply that ends the run.
fn find_end(algorithm: EgoEstimatorAlgorithm, replies: &Vec<FilterReply>) -> (end: Option<
    (usize, Option<EstimateError>),
>)
    ensures
        match end {
            None => goes_on(algorithm, replies@, replies.len() as int),
            Some((index, error)) => ends_at(algorithm, replies@, index as int) && match replies@[
                index as int
            ] {
                FilterReply::Estimated(estimate) => error matches Some(error)
                    && is_estimate_verdict(algorithm, estimate, Err(error)),
                _ => error is None,
            },
        },
{
    let mut index: usize = 0;
    while index < replies.len()
        invariant
            index <= replies.len(),
            goes_on(algorithm, replies@, index as int),
        decreases replies.len() - index,
    {
        match &replies[index] {
            FilterReply::Failed => {
                return Some((index, None));
            },
            FilterReply::Estimated(estimate) => {
                if let Err(error) = validate_estimate(algorithm, estimate) {
                    return Some((index, Some(error)));
                }
            },
            _ => {},
        }
        index = index + 1;
    }
    None
}

/// The estimates among the replies, and what they say of GPS fixes.
fn collect(replies: Vec<FilterReply>) -> (collected: (Vec<EgoStateEstimate>, GpsDiagnostics))
    ensures
        collected.0@ == estimates_of(replies@),
        collected.1 == fixes_of(replies@),
{
    let ghost all = replies@;
    let total = replies.len();
    let mut estimates: Vec<EgoStateEstimate> = Vec::new();
    let mut diagnostics = GpsDiagnostics::default();
    assert(all.take(0) =~= Seq::<FilterReply>::empty());
    for reply in iter: replies.into_iter()
        invariant
            iter.seq() == all,
            total == all.len(),
            estimates@ == estimates_of(all.take(iter.index() as int)),
            diagnostics == fixes_of(all.take(iter.index() as int)),
            diagnostics.is_balanced(),
            diagnostics.attempted_fixes <= iter.index(),
    {
        proof {
            let taken = all.take(iter.index() as int + 1);
            assert(taken.drop_last() =~= all.take(iter.index() as int));
            assert(taken.last() == reply);
        }
        match reply {
            FilterReply::Estimated(estimate) => {
                estimates.push(estimate);
            },
            FilterReply::Updated(result) => {
                diagnostics.record(result);
            },
            _ => {},
        }
    }
    assert(all.take(all.len() as int) =~= all);
    (estimates, diagnostics)
}

/// Takes the replies of a filter to the requests in [`schedule`]. `filter` is what the filter
/// says of itself, if it could be set up; it runs the algorithm that is configured.
pub fn run(
    config: &EgoEstimatorConfig,
    imu: &ImuConfig,
    variances: &InitialVariances,
    measurements: &[EgoMeasurement],
    filter: Option<ActiveEstimator>,
    replies: Vec<FilterReply>,
) -> (outcome: Result<EstimatorRun, EstimatorError>)
    requires
        all_timed(measurements@),
        delivered_in_order(measurements@, measurements.len() as int) && filter is Some
            ==> is_transcript(
            config.algorithm,
            scheduled_actions(*config, measurements@),
            replies@,
        ),
        filter matches Some(active) ==> active.spec_runs(config.algorithm),
    ensures
        is_outcome(
            *config,
            EstimatorSettings::spec_resolve(*config, *imu, *variances),
            measurements@,
            filter,
            replies@,
            outcome,
        ),
        outcome matches Ok(run) ==> run.assumptions.algorithm == config.algorithm
            && run.assumptions.are_complete(),
{
    if let Err(error) = validate_delivery_order(measurements) {
        return Err(EstimatorError::Delivery(error));
    }
    let settings = EstimatorSettings::resolve(config, imu, variances);
    let active = match filter {
        Some(active) => active,
        None => {
            return Err(EstimatorError::Construction { algorithm: config.algorithm });
        },
    };
    let assumptions = active.assumptions(config.algorithm, &settings);
    let plan = schedule(config, measurements);
    if let Some((index, invalid)) = find_end(config.algorithm, &replies) {
        proof {
            law_requests_are_about_deliveries(*config, measurements@, index as int);
        }
        let (measurement, sensor) = match plan.actions[index] {
            FilterAction::Propagate { measurement } => (measurement, EgoSensor::Imu),
            FilterAction::UpdateGps { measurement } => (measurement, EgoSensor::Gps),
            FilterAction::Estimate { measurement, .. } => (measurement, EgoSensor::Imu),
        };
        let time = *measurements[measurement].time();
        let algorithm = config.algorithm;
        let error = match invalid {
            Some(error) => EstimatorError::Estimate { algorithm, time, error },
            None => EstimatorError::Filter { algorithm, sensor, time },
        };
        assert(is_filter_error(*config, measurements@, replies@, index as int, error));
        return Err(error);
    }
    let (estimates, gps_diagnostics) = collect(replies);
    Ok(
        EstimatorRun {
            estimates,
            timing: timing(
                config,
                measurements,
                plan.delayed_measurements,
                plan.replayed_measurements,
                plan.discarded_measurements,
                plan.revised_estimates,
            ),
            gps_diagnostics,
            assumptions,
        },
    )
}

impl EgoSensor {
    pub open spec fn spec_name(self) -> Seq<char> {
        match self {
            EgoSensor::Imu => "IMU"@,
            EgoSensor::Gps => "GPS"@,
        }
    }

    pub fn name(self) -> (name: &'static str)
        ensures
            name@ == self.spec_name(),
    {
        match self {
            EgoSensor::Imu => "IMU",
            EgoSensor::Gps => "GPS",
        }
    }
}

/// On which delivery which filter failed, in words.
pub open spec fn estimator_error_text(
    algorithm: EgoEstimatorAlgorithm,
    sensor: EgoSensor,
    time: MeasurementTime,
) -> Seq<char> {
    algorithm.spec_name() + " estimator failed on "@ + sensor.spec_name() + " measured at "@
        + signed_decimal(time.measurement_time_ns as int) + " ns and received at "@
        + signed_decimal(time.arrival_time_ns as int) + " ns"@
}

pub fn estimator_error(
    algorithm: EgoEstimatorAlgorithm,
    sensor: EgoSensor,
    time: &MeasurementTime,
) -> (text: String)
    ensures
        text@ == estimator_error_text(algorithm, sensor, *time),
{
    let mut text = algorithm.name().to_owned();
    text.append(" estimator failed on ");
    text.append(sensor.name());
    text.append(" measured at ");
    text.append(signed_text(time.measurement_time_ns).as_str());
    text.append(" ns and received at ");
    text.append(signed_text(time.arrival_time_ns).as_str());
    text.append(" ns");
    text
}

impl EstimatorError {
    pub open spec fn spec_message(self) -> Seq<char> {
        match self {
            EstimatorError::Delivery(error) => error.spec_message(),
            EstimatorError::Construction { algorithm } => "failed to construct "@
                + algorithm.spec_name() + " estimator"@,
            EstimatorError::Filter { algorithm, sensor, time } => estimator_error_text(
                algorithm,
                sensor,
                time,
            ),
            EstimatorError::Estimate { algorithm, time, .. } => estimator_error_text(
                algorithm,
                EgoSensor::Imu,
                time,
            ),
        }
    }

    /// The error in words. What is wrong with a reported estimate has words of its own.
    pub fn message(&self) -> (text: String)
        ensures
            text@ == self.spec_message(),
    {
        match self {
            EstimatorError::Delivery(error) => error.message(),
            EstimatorError::Construction { algorithm } => {
                let mut text = "failed to construct ".to_owned();
                text.append(algorithm.name());
                text.append(" estimator");
                text
            },
            EstimatorError::Filter { algorithm, sensor, time } => estimator_error(
                *algorithm,
                *sensor,
                time,
            ),
            EstimatorError::Estimate { algorithm, time, .. } => estimator_error(
                *algorithm,
                EgoSensor::Imu,
                time,
            ),
        }
    }
}

} // verus!
