//! Which rule a scenario is refused for, in terms of the scenario alone.
use vstd::prelude::*;

use crate::binary64::Binary64;
use crate::pipeline::SensorKind;

use super::rules::{
    estimator_quantities, noise_quantities, noises_verdict, object_id_is_new, objects_verdict,
    parameters_verdict, scenario_verdict, segment_id_is_new, segments_verdict, EstimatorParameter,
    NoiseParameter, ScenarioArithmetic, ScenarioError,
};
use super::{MotionSegment, ObjectConfig, ResolvedScenario};

verus! {

/// Above zero and finite.
pub open spec fn is_size(value: Binary64) -> bool {
    value.is_finite() && (Binary64 { bits: 0 }).less_than(value)
}

/// At least zero and finite.
pub open spec fn is_amount(value: Binary64) -> bool {
    value.is_finite() && (Binary64 { bits: 0 }).at_most(value)
}

/// From zero to one.
pub open spec fn is_share(value: Binary64) -> bool {
    (Binary64 { bits: 0 }).at_most(value) && value.at_most(
        Binary64 { bits: 0x3FF0_0000_0000_0000 },
    )
}

/// Above zero and at most a full turn.
pub open spec fn is_opening(value: Binary64) -> bool {
    (Binary64 { bits: 0 }).less_than(value) && value.at_most(
        Binary64 { bits: 0x4019_21FB_5444_2D18 },
    )
}

pub open spec fn is_enabled(scenario: ResolvedScenario, sensor: SensorKind) -> bool {
    match sensor {
        SensorKind::Imu => scenario.imu.enabled,
        SensorKind::Gps => scenario.gps.enabled,
        SensorKind::Camera => scenario.camera.enabled,
        SensorKind::Lidar => scenario.lidar.enabled,
    }
}

pub open spec fn rate_of(scenario: ResolvedScenario, sensor: SensorKind) -> Binary64 {
    match sensor {
        SensorKind::Imu => scenario.imu.rate_hz,
        SensorKind::Gps => scenario.gps.rate_hz,
        SensorKind::Camera => scenario.camera.rate_hz,
        SensorKind::Lidar => scenario.lidar.rate_hz,
    }
}

pub open spec fn period_error_of(arithmetic: ScenarioArithmetic, sensor: SensorKind) -> Binary64 {
    match sensor {
        SensorKind::Imu => arithmetic.imu_period_error_ns,
        SensorKind::Gps => arithmetic.gps_period_error_ns,
        SensorKind::Camera => arithmetic.camera_period_error_ns,
        SensorKind::Lidar => arithmetic.lidar_period_error_ns,
    }
}

pub open spec fn latency_of(scenario: ResolvedScenario, sensor: SensorKind) -> int {
    match sensor {
        SensorKind::Imu => scenario.imu.latency_ns as int,
        SensorKind::Gps => scenario.gps.latency_ns as int,
        SensorKind::Camera => scenario.camera.latency_ns as int,
        SensorKind::Lidar => scenario.lidar.latency_ns as int,
    }
}

pub open spec fn noise_of(scenario: ResolvedScenario, parameter: NoiseParameter) -> Binary64 {
    match parameter {
        NoiseParameter::Gyro => scenario.imu.gyro_white_noise_density_radps_sqrt_hz,
        NoiseParameter::Accelerometer => scenario.imu.accel_white_noise_density_mps2_sqrt_hz,
        NoiseParameter::GyroBiasWalk => scenario.imu.gyro_bias_random_walk_radps_sqrt_s,
        NoiseParameter::AccelerometerBiasWalk => scenario.imu.accel_bias_random_walk_mps2_sqrt_s,
        NoiseParameter::Gps => scenario.gps.horizontal_position_stddev_m,
        NoiseParameter::GpsOutlier => scenario.gps.outlier_stddev_m,
        NoiseParameter::CameraBearing => scenario.camera.bearing_noise_stddev_rad,
        NoiseParameter::LidarRange => scenario.lidar.range_noise_stddev_m,
        NoiseParameter::LidarBearing => scenario.lidar.bearing_noise_stddev_rad,
    }
}

pub open spec fn setting_of(
    scenario: ResolvedScenario,
    parameter: EstimatorParameter,
) -> Binary64 {
    match parameter {
        EstimatorParameter::GpsGate => scenario.ego_estimator.gps_gate_sigma,
        EstimatorParameter::InitialPosition => scenario.ego_estimator.initial_position_stddev_m,
        EstimatorParameter::InitialYaw => scenario.ego_estimator.initial_yaw_stddev_rad,
        EstimatorParameter::InitialSpeed => scenario.ego_estimator.initial_speed_stddev_mps,
        EstimatorParameter::InitialGyroBias =>
            scenario.ego_estimator.initial_gyro_bias_stddev_radps,
        EstimatorParameter::InitialAccelerometerBias =>
            scenario.ego_estimator.initial_accel_bias_stddev_mps2,
        EstimatorParameter::TrackerAcceleration =>
            scenario.object_tracker.acceleration_noise_stddev_mps2,
        EstimatorParameter::TrackerGate => scenario.object_tracker.gate_sigma,
        EstimatorParameter::TrackerMaximumSilence =>
            scenario.object_tracker.max_time_without_update_s,
        EstimatorParameter::TrackTruthDistance =>
            scenario.metrics.track_truth_match_max_distance_m,
    }
}

/// Whether the name of the object at `index` is empty or that of an earlier object.
pub open spec fn has_bad_object_id(objects: Seq<ObjectConfig>, index: int) -> bool {
    objects[index].id@.len() == 0 || exists|i: int|
        0 <= i < index && (#[trigger] objects[i]).id@ == objects[index].id@
}

/// Whether the place or the velocity of the object at `index` is not finite.
pub open spec fn has_bad_state(objects: Seq<ObjectConfig>, index: int) -> bool {
    let object = objects[index];
    !(object.initial_position_m.x.is_finite() && object.initial_position_m.y.is_finite()
        && object.velocity_world_mps.x.is_finite() && object.velocity_world_mps.y.is_finite())
}

/// Whether the name of the segment at `index` is empty or that of an earlier segment.
pub open spec fn has_bad_segment_id(trajectory: Seq<MotionSegment>, index: int) -> bool {
    trajectory[index].id@.len() == 0 || exists|i: int|
        0 <= i < index && (#[trigger] trajectory[i]).id@ == trajectory[index].id@
}

pub open spec fn has_bad_motion(trajectory: Seq<MotionSegment>, index: int) -> bool {
    !(trajectory[index].longitudinal_acceleration_mps2.is_finite()
        && trajectory[index].yaw_rate_radps.is_finite())
}

/// Whether a speed is below zero by more than one billionth, or no number.
pub open spec fn is_backwards(speed_mps: Binary64) -> bool {
    !(Binary64 { bits: 0xBE11_2E0B_E826_D695 }).at_most(speed_mps)
}

/// Whether a scenario breaks the rule that an error names.
pub open spec fn breaks(
    scenario: ResolvedScenario,
    arithmetic: ScenarioArithmetic,
    error: ScenarioError,
) -> bool {
    let objects = scenario.world.objects@;
    let trajectory = scenario.trajectory@;
    match error {
        ScenarioError::MotionSpeedFactor => !is_size(scenario.motion_speed_factor),
        ScenarioError::ImuDisabled => !scenario.imu.enabled,
        ScenarioError::RateNotPositive { sensor } => is_enabled(scenario, sensor) && !is_size(
            rate_of(scenario, sensor),
        ),
        ScenarioError::RateNotWholeNanoseconds { sensor } => is_enabled(scenario, sensor)
            && !period_error_of(arithmetic, sensor).less_than(
            Binary64 { bits: 0x3EB0_C6F7_A0B5_ED8D },
        ),
        ScenarioError::NegativeLatency { sensor } => latency_of(scenario, sensor) < 0,
        ScenarioError::NegativeClockOffset => scenario.imu.clock_offset_ns < 0,
        ScenarioError::Noise(parameter) => !is_amount(noise_of(scenario, parameter)),
        ScenarioError::CameraFieldOfView => !is_opening(scenario.camera.horizontal_fov_rad),
        ScenarioError::CameraRange => !is_size(scenario.camera.max_range_m),
        ScenarioError::CameraDetectionProbability => !is_share(
            scenario.camera.detection_probability,
        ),
        ScenarioError::GpsOutlierProbability => !is_share(scenario.gps.outlier_probability),
        ScenarioError::LidarFieldOfView => !is_opening(scenario.lidar.horizontal_fov_rad),
        ScenarioError::LidarRange => !is_size(scenario.lidar.max_range_m),
        ScenarioError::LidarScanDuration => scenario.lidar.scan_duration_ns < 0,
        ScenarioError::LidarDetectionProbability => !is_share(
            scenario.lidar.detection_probability,
        ),
        ScenarioError::NoObjects => objects.len() == 0,
        ScenarioError::ObjectId => exists|i: int|
            0 <= i < objects.len() && #[trigger] has_bad_object_id(objects, i),
        ScenarioError::ObjectState { object } => object < objects.len() && has_bad_state(
            objects,
            object as int,
        ),
        ScenarioError::NoSegments => trajectory.len() == 0,
        ScenarioError::SegmentId => exists|i: int|
            0 <= i < trajectory.len() && #[trigger] has_bad_segment_id(trajectory, i),
        ScenarioError::SegmentDuration { segment } => segment < trajectory.len() && !is_size(
            trajectory[segment as int].duration_s,
        ),
        ScenarioError::SegmentMotion { segment } => segment < trajectory.len() && has_bad_motion(
            trajectory,
            segment as int,
        ),
        ScenarioError::SegmentSpeed { segment } => segment < trajectory.len() && is_backwards(
            arithmetic.forward_speed_mps@[segment as int],
        ),
        ScenarioError::HistoryDuration => scenario.ego_estimator.history_duration_ns < 0
            || scenario.object_tracker.history_duration_ns < 0,
        ScenarioError::Estimator(parameter) => !is_size(setting_of(scenario, parameter)),
        ScenarioError::TruthMatchGap => scenario.metrics.max_truth_match_gap_ns < 0,
        ScenarioError::ConfirmationHits => scenario.object_tracker.confirmation_hits == 0,
        ScenarioError::ErrorThresholds => {
            ||| !(Binary64 { bits: 0 }).less_than(scenario.metrics.ego_divergence_position_error_m)
            ||| !(Binary64 { bits: 0 }).less_than(
                scenario.metrics.track_divergence_position_error_m,
            )
        },
    }
}

pub open spec fn sensor_rank(sensor: SensorKind) -> int {
    match sensor {
        SensorKind::Imu => 0,
        SensorKind::Gps => 1,
        SensorKind::Camera => 2,
        SensorKind::Lidar => 3,
    }
}

pub open spec fn noise_rank(parameter: NoiseParameter) -> int {
    match parameter {
        NoiseParameter::Gyro => 0,
        NoiseParameter::Accelerometer => 1,
        NoiseParameter::GyroBiasWalk => 2,
        NoiseParameter::AccelerometerBiasWalk => 3,
        NoiseParameter::Gps => 4,
        NoiseParameter::GpsOutlier => 5,
        NoiseParameter::CameraBearing => 6,
        NoiseParameter::LidarRange => 7,
        NoiseParameter::LidarBearing => 8,
    }
}

pub open spec fn setting_rank(parameter: EstimatorParameter) -> int {
    match parameter {
        EstimatorParameter::GpsGate => 0,
        EstimatorParameter::InitialPosition => 1,
        EstimatorParameter::InitialYaw => 2,
        EstimatorParameter::InitialSpeed => 3,
        EstimatorParameter::InitialGyroBias => 4,
        EstimatorParameter::InitialAccelerometerBias => 5,
        EstimatorParameter::TrackerAcceleration => 6,
        EstimatorParameter::TrackerGate => 7,
        EstimatorParameter::TrackerMaximumSilence => 8,
        EstimatorParameter::TrackTruthDistance => 9,
    }
}

/// The order in which rules are tested. The rules on objects share one rank, and so do those on
/// segments: they are tested object by object and segment by segment.
pub open spec fn rank(error: ScenarioError) -> int {
    match error {
        ScenarioError::MotionSpeedFactor => 0,
        ScenarioError::ImuDisabled => 1,
        ScenarioError::RateNotPositive { sensor } => 2 + 3 * sensor_rank(sensor),
        ScenarioError::RateNotWholeNanoseconds { sensor } => 3 + 3 * sensor_rank(sensor),
        ScenarioError::NegativeLatency { sensor } => 4 + 3 * sensor_rank(sensor),
        ScenarioError::NegativeClockOffset => 14,
        ScenarioError::Noise(parameter) => 15 + noise_rank(parameter),
        ScenarioError::CameraFieldOfView => 24,
        ScenarioError::CameraRange => 25,
        ScenarioError::CameraDetectionProbability => 26,
        ScenarioError::GpsOutlierProbability => 27,
        ScenarioError::LidarFieldOfView => 28,
        ScenarioError::LidarRange => 29,
        ScenarioError::LidarScanDuration => 30,
        ScenarioError::LidarDetectionProbability => 31,
        ScenarioError::NoObjects => 32,
        ScenarioError::ObjectId => 33,
        ScenarioError::ObjectState { .. } => 33,
        ScenarioError::NoSegments => 34,
        ScenarioError::SegmentId => 35,
        ScenarioError::SegmentDuration { .. } => 35,
        ScenarioError::SegmentMotion { .. } => 35,
        ScenarioError::SegmentSpeed { .. } => 35,
        ScenarioError::HistoryDuration => 36,
        ScenarioError::Estimator(parameter) => 37 + setting_rank(parameter),
        ScenarioError::TruthMatchGap => 47,
        ScenarioError::ConfirmationHits => 48,
        ScenarioError::ErrorThresholds => 49,
    }
}

/// Whether all objects before `end` have names of their own and are in finite states.
pub open spec fn objects_are_good(objects: Seq<ObjectConfig>, end: int) -> bool {
    forall|i: int|
        0 <= i < end ==> !#[trigger] has_bad_object_id(objects, i) && !has_bad_state(objects, i)
}

/// Whether a segment has a name of its own, lasts, moves finitely and does not end backwards.
pub open spec fn segment_is_good(
    trajectory: Seq<MotionSegment>,
    forward_speed_mps: Seq<Binary64>,
    index: int,
) -> bool {
    &&& !has_bad_segment_id(trajectory, index)
    &&& is_size(trajectory[index].duration_s)
    &&& !has_bad_motion(trajectory, index)
    &&& !is_backwards(forward_speed_mps[index])
}

pub open spec fn segments_are_good(
    trajectory: Seq<MotionSegment>,
    forward_speed_mps: Seq<Binary64>,
    end: int,
) -> bool {
    forall|i: int|
        0 <= i < end ==> #[trigger] segment_is_good(trajectory, forward_speed_mps, i)
}

/// Whether an error is what the first bad object is refused for: for its name first.
pub open spec fn is_first_object_error(objects: Seq<ObjectConfig>, error: ScenarioError) -> bool {
    exists|k: int|
        #![trigger has_bad_object_id(objects, k)]
        {
            &&& 0 <= k < objects.len()
            &&& objects_are_good(objects, k)
            &&& if has_bad_object_id(objects, k) {
                error == ScenarioError::ObjectId
            } else {
                has_bad_state(objects, k) && error == (ScenarioError::ObjectState {
                    object: k as usize,
                })
            }
        }
}

/// Whether an error is what the first bad segment is refused for: for its name first, then for
/// its duration, its motion, and the speed that it ends with.
pub open spec fn is_first_segment_error(
    trajectory: Seq<MotionSegment>,
    forward_speed_mps: Seq<Binary64>,
    error: ScenarioError,
) -> bool {
    exists|k: int|
        #![trigger has_bad_segment_id(trajectory, k)]
        {
            let segment = k as usize;
            &&& 0 <= k < trajectory.len()
            &&& segments_are_good(trajectory, forward_speed_mps, k)
            &&& if has_bad_segment_id(trajectory, k) {
                error == ScenarioError::SegmentId
            } else if !is_size(trajectory[k].duration_s) {
                error == (ScenarioError::SegmentDuration { segment })
            } else if has_bad_motion(trajectory, k) {
                error == (ScenarioError::SegmentMotion { segment })
            } else {
                is_backwards(forward_speed_mps[k]) && error == (ScenarioError::SegmentSpeed {
                    segment,
                })
            }
        }
}

proof fn lemma_objects(objects: Seq<ObjectConfig>, count: int)
    requires
        0 <= count <= objects.len(),
    ensures
        match objects_verdict(objects, count) {
            Ok(()) => objects_are_good(objects, count),
            Err(error) => is_first_object_error(objects, error),
        },
    decreases count,
{
    if count > 0 {
        lemma_objects(objects, count - 1);
        let k = count - 1;
        assert(has_bad_object_id(objects, k) == !object_id_is_new(objects, k));
        if objects_verdict(objects, k) is Ok {
            assert(objects_are_good(objects, k));
            assert(has_bad_state(objects, k) == !(objects[k].initial_position_m.finite()
                && objects[k].velocity_world_mps.finite()));
            if objects_verdict(objects, count) is Ok {
                assert forall|i: int| 0 <= i < count implies !#[trigger] has_bad_object_id(
                    objects,
                    i,
                ) && !has_bad_state(objects, i) by {
                    if i < k {
                        assert(!has_bad_object_id(objects, i));
                    }
                }
            }
        }
    }
}

proof fn lemma_segments(
    trajectory: Seq<MotionSegment>,
    forward_speed_mps: Seq<Binary64>,
    count: int,
)
    requires
        0 <= count <= trajectory.len(),
    ensures
        match segments_verdict(trajectory, forward_speed_mps, count) {
            Ok(()) => segments_are_good(trajectory, forward_speed_mps, count),
            Err(error) => is_first_segment_error(trajectory, forward_speed_mps, error),
        },
    decreases count,
{
    if count > 0 {
        lemma_segments(trajectory, forward_speed_mps, count - 1);
        let k = count - 1;
        assert(has_bad_segment_id(trajectory, k) == !segment_id_is_new(trajectory, k));
        if segments_verdict(trajectory, forward_speed_mps, k) is Ok {
            assert(segments_are_good(trajectory, forward_speed_mps, k));
        }
    }
}

proof fn lemma_noises(scenario: ResolvedScenario)
    ensures
        match noises_verdict(noise_quantities(scenario), 9) {
            Ok(()) => forall|parameter: NoiseParameter|
                is_amount(#[trigger] noise_of(scenario, parameter)),
            Err(error) => {
                &&& 15 <= rank(error) < 24
                &&& error matches ScenarioError::Noise(found)
                &&& !is_amount(noise_of(scenario, found))
                &&& forall|parameter: NoiseParameter|
                    noise_rank(parameter) < noise_rank(found) ==> is_amount(
                        #[trigger] noise_of(scenario, parameter),
                    )
            },
        },
{
    reveal_with_fuel(noises_verdict, 10);
}

proof fn lemma_settings(scenario: ResolvedScenario)
    ensures
        match parameters_verdict(estimator_quantities(scenario), 10) {
            Ok(()) => forall|parameter: EstimatorParameter|
                is_size(#[trigger] setting_of(scenario, parameter)),
            Err(error) => {
                &&& 37 <= rank(error) < 47
                &&& error matches ScenarioError::Estimator(found)
                &&& !is_size(setting_of(scenario, found))
                &&& forall|parameter: EstimatorParameter|
                    setting_rank(parameter) < setting_rank(found) ==> is_size(
                        #[trigger] setting_of(scenario, parameter),
                    )
            },
        },
{
    reveal_with_fuel(parameters_verdict, 11);
}

proof fn lemma_parts(scenario: ResolvedScenario, arithmetic: ScenarioArithmetic)
    ensures
        ({
            let objects = scenario.world.objects@;
            let trajectory = scenario.trajectory@;
            let speeds = arithmetic.forward_speed_mps@;
            &&& match objects_verdict(objects, objects.len() as int) {
                Ok(()) => objects_are_good(objects, objects.len() as int),
                Err(error) => is_first_object_error(objects, error) && rank(error) == 33,
            }
            &&& match segments_verdict(trajectory, speeds, trajectory.len() as int) {
                Ok(()) => segments_are_good(trajectory, speeds, trajectory.len() as int),
                Err(error) => is_first_segment_error(trajectory, speeds, error) && rank(error)
                    == 35,
            }
            &&& estimator_quantities(scenario).len() == 10
        }),
{
    lemma_objects(scenario.world.objects@, scenario.world.objects@.len() as int);
    lemma_segments(
        scenario.trajectory@,
        arithmetic.forward_speed_mps@,
        scenario.trajectory@.len() as int,
    );
}

/// A scenario is refused only for a rule that it breaks.
#[verifier::rlimit(40)]
pub proof fn law_refusals_are_deserved(
    scenario: ResolvedScenario,
    arithmetic: ScenarioArithmetic,
    error: ScenarioError,
)
    requires
        scenario.world.objects@.len() <= usize::MAX,
        scenario.trajectory@.len() <= usize::MAX,
        scenario_verdict(scenario, arithmetic) == Err::<(), _>(error),
    ensures
        breaks(scenario, arithmetic, error),
{
    lemma_parts(scenario, arithmetic);
    lemma_noises(scenario);
    lemma_settings(scenario);
}

/// A scenario that breaks a rule is refused, for that rule or for one that is tested before it or
/// together with it.
#[verifier::rlimit(80)]
pub proof fn law_the_first_broken_rule_counts(
    scenario: ResolvedScenario,
    arithmetic: ScenarioArithmetic,
    broken: ScenarioError,
)
    requires
        breaks(scenario, arithmetic, broken),
    ensures
        scenario_verdict(scenario, arithmetic) matches Err(error) && rank(error) <= rank(broken),
{
    lemma_parts(scenario, arithmetic);
    lemma_noises(scenario);
    lemma_settings(scenario);
    let objects = scenario.world.objects@;
    let trajectory = scenario.trajectory@;
    match broken {
        ScenarioError::ObjectId => {
            let i = choose|i: int|
                0 <= i < objects.len() && #[trigger] has_bad_object_id(objects, i);
            assert(has_bad_object_id(objects, i));
        },
        ScenarioError::ObjectState { object } => {
            if objects_are_good(objects, objects.len() as int) {
                assert(!has_bad_object_id(objects, object as int));
            }
        },
        ScenarioError::SegmentId => {
            let i = choose|i: int|
                0 <= i < trajectory.len() && #[trigger] has_bad_segment_id(trajectory, i);
            assert(!segment_is_good(trajectory, arithmetic.forward_speed_mps@, i));
        },
        ScenarioError::SegmentDuration { segment } => {
            assert(!segment_is_good(trajectory, arithmetic.forward_speed_mps@, segment as int));
        },
        ScenarioError::SegmentMotion { segment } => {
            assert(!segment_is_good(trajectory, arithmetic.forward_speed_mps@, segment as int));
        },
        ScenarioError::SegmentSpeed { segment } => {
            assert(!segment_is_good(trajectory, arithmetic.forward_speed_mps@, segment as int));
        },
        _ => {},
    }
}

/// A world that is refused is refused for the first object that is at fault.
#[verifier::rlimit(40)]
pub proof fn law_the_first_bad_object_counts(
    scenario: ResolvedScenario,
    arithmetic: ScenarioArithmetic,
    error: ScenarioError,
)
    requires
        scenario_verdict(scenario, arithmetic) == Err::<(), _>(error),
        rank(error) == rank(ScenarioError::ObjectId),
    ensures
        is_first_object_error(scenario.world.objects@, error),
{
    lemma_parts(scenario, arithmetic);
    lemma_noises(scenario);
    lemma_settings(scenario);
}

/// A trajectory that is refused is refused for the first segment that is at fault.
#[verifier::rlimit(40)]
pub proof fn law_the_first_bad_segment_counts(
    scenario: ResolvedScenario,
    arithmetic: ScenarioArithmetic,
    error: ScenarioError,
)
    requires
        scenario_verdict(scenario, arithmetic) == Err::<(), _>(error),
        rank(error) == rank(ScenarioError::SegmentId),
    ensures
        is_first_segment_error(
            scenario.trajectory@,
            arithmetic.forward_speed_mps@,
            error,
        ),
{
    lemma_parts(scenario, arithmetic);
    lemma_noises(scenario);
    lemma_settings(scenario);
}

// Words.

/// Whether a text starts with another.
pub open spec fn starts_with(text: Seq<char>, start: Seq<char>) -> bool {
    start.len() <= text.len() && text.take(start.len() as int) == start
}

proof fn lemma_starts_with(start: Seq<char>, rest: Seq<char>)
    ensures
        starts_with(start + rest, start),
{
    assert((start + rest).take(start.len() as int) =~= start);
}

/// What is said of an object or of a segment starts with its own name, and what is said of a
/// sensor with the sensor's.
pub proof fn law_messages_start_with_what_they_are_about(
    error: ScenarioError,
    scenario: ResolvedScenario,
)
    requires
        error.is_about(scenario),
    ensures
        ({
            let text = error.spec_message(scenario);
            match error {
                ScenarioError::ObjectState { object } => starts_with(
                    text,
                    "object "@ + scenario.world.objects@[object as int].id@,
                ),
                ScenarioError::SegmentDuration { segment } => starts_with(
                    text,
                    "segment "@ + scenario.trajectory@[segment as int].id@,
                ),
                ScenarioError::SegmentMotion { segment } => starts_with(
                    text,
                    "segment "@ + scenario.trajectory@[segment as int].id@,
                ),
                ScenarioError::SegmentSpeed { segment } => starts_with(
                    text,
                    "segment "@ + scenario.trajectory@[segment as int].id@,
                ),
                ScenarioError::RateNotPositive { sensor } => starts_with(text, word_for(sensor)),
                ScenarioError::RateNotWholeNanoseconds { sensor } => starts_with(
                    text,
                    word_for(sensor),
                ),
                ScenarioError::NegativeLatency { sensor } => starts_with(text, word_for(sensor)),
                _ => true,
            }
        }),
{
    match error {
        ScenarioError::ObjectState { object } => {
            let start = "object "@ + scenario.world.objects@[object as int].id@;
            lemma_starts_with(start, " state must be finite"@);
        },
        ScenarioError::SegmentDuration { segment } => {
            let start = "segment "@ + scenario.trajectory@[segment as int].id@;
            lemma_starts_with(start, " duration must be positive"@);
        },
        ScenarioError::SegmentMotion { segment } => {
            let start = "segment "@ + scenario.trajectory@[segment as int].id@;
            lemma_starts_with(start, " motion must be finite"@);
        },
        ScenarioError::SegmentSpeed { segment } => {
            let start = "segment "@ + scenario.trajectory@[segment as int].id@;
            lemma_starts_with(start, " produces a negative forward speed"@);
        },
        ScenarioError::RateNotPositive { sensor } => {
            lemma_starts_with(word_for(sensor), " rate must be positive"@);
        },
        ScenarioError::RateNotWholeNanoseconds { sensor } => {
            lemma_starts_with(
                word_for(sensor),
                " rate must map to an integer nanosecond period"@,
            );
        },
        ScenarioError::NegativeLatency { sensor } => {
            lemma_starts_with(word_for(sensor), " latency must be nonnegative"@);
        },
        _ => {},
    }
}

/// The word for a sensor.
pub open spec fn word_for(sensor: SensorKind) -> Seq<char> {
    match sensor {
        SensorKind::Imu => "imu"@,
        SensorKind::Gps => "gps"@,
        SensorKind::Camera => "camera"@,
        SensorKind::Lidar => "lidar"@,
    }
}

} // verus!
