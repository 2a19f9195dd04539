//! What makes a scenario valid, rule by rule and in the order in which they are tested.
use vstd::prelude::*;

use crate::binary64::{Binary64, TAU};
use crate::pipeline::SensorKind;

use super::{
    CameraConfig, LidarConfig, MotionSegment, ObjectConfig, ResolvedScenario, Vec2Config,
};

verus! {

/// The encoding of one millionth: how far, in nanoseconds, a sampling period may be from a whole
/// number.
pub const PERIOD_TOLERANCE_NS: u64 = 0x3EB0_C6F7_A0B5_ED8D;

/// The encoding of minus one billionth: the lowest forward speed, in metres per second, that
/// still counts as standing still.
pub const LOWEST_SPEED_MPS: u64 = 0xBE11_2E0B_E826_D695;

/// What the rules need of a scenario and that takes arithmetic in double precision.
#[derive(Debug, Clone)]
pub struct ScenarioArithmetic {
    /// How far one billion divided by the sampling rate is from the nearest whole number.
    pub imu_period_error_ns: Binary64,
    pub gps_period_error_ns: Binary64,
    pub camera_period_error_ns: Binary64,
    pub lidar_period_error_ns: Binary64,
    /// The forward speed at the end of each segment: the sum of acceleration times duration so
    /// far, starting from rest.
    pub forward_speed_mps: Vec<Binary64>,
}

/// The quantities that have to be finite and at least zero.
#[derive(Debug, Clone, Copy, PartialEq, Eq, Structural)]
pub enum NoiseParameter {
    Gyro,
    Accelerometer,
    GyroBiasWalk,
    AccelerometerBiasWalk,
    Gps,
    GpsOutlier,
    CameraBearing,
    LidarRange,
    LidarBearing,
}

/// The quantities that have to be finite and above zero.
#[derive(Debug, Clone, Copy, PartialEq, Eq, Structural)]
pub enum EstimatorParameter {
    GpsGate,
    InitialPosition,
    InitialYaw,
    InitialSpeed,
    InitialGyroBias,
    InitialAccelerometerBias,
    TrackerAcceleration,
    TrackerGate,
    TrackerMaximumSilence,
    TrackTruthDistance,
}

/// The rule that a scenario breaks. Objects and segments are named by their place in the list.
#[derive(Debug, Clone, Copy, PartialEq, Eq, Structural)]
pub enum ScenarioError {
    MotionSpeedFactor,
    ImuDisabled,
    RateNotPositive { sensor: SensorKind },
    RateNotWholeNanoseconds { sensor: SensorKind },
    NegativeLatency { sensor: SensorKind },
    NegativeClockOffset,
    Noise(NoiseParameter),
    CameraFieldOfView,
    CameraRange,
    CameraDetectionProbability,
    GpsOutlierProbability,
    LidarFieldOfView,
    LidarRange,
    LidarScanDuration,
    LidarDetectionProbability,
    NoObjects,
    ObjectId,
    ObjectState { object: usize },
    NoSegments,
    SegmentId,
    SegmentDuration { segment: usize },
    SegmentMotion { segment: usize },
    SegmentSpeed { segment: usize },
    HistoryDuration,
    Estimator(EstimatorParameter),
    TruthMatchGap,
    ConfirmationHits,
    ErrorThresholds,
}

/// The verdict of one rule.
pub open spec fn rule(holds: bool, error: ScenarioError) -> Result<(), ScenarioError> {
    if holds {
        Ok(())
    } else {
        Err(error)
    }
}

/// The verdict of two sets of rules, tested one after the other.
pub open spec fn both(
    first: Result<(), ScenarioError>,
    second: Result<(), ScenarioError>,
) -> Result<(), ScenarioError> {
    if first is Err {
        first
    } else {
        second
    }
}

fn check(holds: bool, error: ScenarioError) -> (verdict: Result<(), ScenarioError>)
    ensures
        verdict == rule(holds, error),
{
    if holds {
        Ok(())
    } else {
        Err(error)
    }
}

impl Vec2Config {
    pub open spec fn spec_finite(self) -> bool {
        self.x.is_finite() && self.y.is_finite()
    }

    #[verifier::when_used_as_spec(spec_finite)]
    pub fn finite(self) -> (answer: bool)
        ensures
            answer == self.spec_finite(),
    {
        self.x.is_finite() && self.y.is_finite()
    }
}

pub open spec fn rate_verdict(
    sensor: SensorKind,
    rate_hz: Binary64,
    period_error_ns: Binary64,
) -> Result<(), ScenarioError> {
    both(
        rule(
            rate_hz.is_finite() && rate_hz.is_positive(),
            ScenarioError::RateNotPositive { sensor },
        ),
        rule(
            period_error_ns.less_than(Binary64 { bits: PERIOD_TOLERANCE_NS }),
            ScenarioError::RateNotWholeNanoseconds { sensor },
        ),
    )
}

/// Tests a sampling rate, given how far its period is from a whole number of nanoseconds.
pub fn validate_rate(sensor: SensorKind, rate_hz: Binary64, period_error_ns: Binary64) -> (verdict:
    Result<(), ScenarioError>)
    ensures
        verdict == rate_verdict(sensor, rate_hz, period_error_ns),
{
    check(
        rate_hz.is_finite() && rate_hz.is_positive(),
        ScenarioError::RateNotPositive { sensor },
    )?;
    check(
        period_error_ns.less_than(Binary64 { bits: PERIOD_TOLERANCE_NS }),
        ScenarioError::RateNotWholeNanoseconds { sensor },
    )
}


pub open spec fn sensor_verdict(
    sensor: SensorKind,
    enabled: bool,
    rate_hz: Binary64,
    period_error_ns: Binary64,
    latency_ns: i64,
) -> Result<(), ScenarioError> {
    both(
        if enabled {
            rate_verdict(sensor, rate_hz, period_error_ns)
        } else {
            Ok(())
        },
        rule(latency_ns >= 0, ScenarioError::NegativeLatency { sensor }),
    )
}

/// Tests what all sensors share; the rate only of a sensor that is enabled.
fn validate_sensor(
    sensor: SensorKind,
    enabled: bool,
    rate_hz: Binary64,
    period_error_ns: Binary64,
    latency_ns: i64,
) -> (verdict: Result<(), ScenarioError>)
    ensures
        verdict == sensor_verdict(sensor, enabled, rate_hz, period_error_ns, latency_ns),
{
    if enabled {
        validate_rate(sensor, rate_hz, period_error_ns)?;
    }
    check(latency_ns >= 0, ScenarioError::NegativeLatency { sensor })
}

pub open spec fn noise_verdict(value: Binary64, parameter: NoiseParameter) -> Result<
    (),
    ScenarioError,
> {
    rule(value.is_finite() && value.is_nonnegative(), ScenarioError::Noise(parameter))
}

fn validate_noise(value: Binary64, parameter: NoiseParameter) -> (verdict: Result<
    (),
    ScenarioError,
>)
    ensures
        verdict == noise_verdict(value, parameter),
{
    check(value.is_finite() && value.is_nonnegative(), ScenarioError::Noise(parameter))
}

pub open spec fn camera_verdict(config: CameraConfig) -> Result<(), ScenarioError> {
    both(
        rule(
            config.horizontal_fov_rad.is_positive() && config.horizontal_fov_rad.at_most(
                Binary64 { bits: TAU },
            ),
            ScenarioError::CameraFieldOfView,
        ),
        both(
            rule(
                config.max_range_m.is_finite() && config.max_range_m.is_positive(),
                ScenarioError::CameraRange,
            ),
            rule(
                config.detection_probability.is_probability(),
                ScenarioError::CameraDetectionProbability,
            ),
        ),
    )
}

/// Tests what the camera can see.
pub fn validate_detection_sensor(config: &CameraConfig) -> (verdict: Result<(), ScenarioError>)
    ensures
        verdict == camera_verdict(*config),
{
    check(
        config.horizontal_fov_rad.is_positive() && config.horizontal_fov_rad.at_most(
            Binary64 { bits: TAU },
        ),
        ScenarioError::CameraFieldOfView,
    )?;
    check(
        config.max_range_m.is_finite() && config.max_range_m.is_positive(),
        ScenarioError::CameraRange,
    )?;
    check(config.detection_probability.is_probability(), ScenarioError::CameraDetectionProbability)
}

pub open spec fn lidar_verdict(config: LidarConfig) -> Result<(), ScenarioError> {
    both(
        rule(
            config.horizontal_fov_rad.is_positive() && config.horizontal_fov_rad.at_most(
                Binary64 { bits: TAU },
            ),
            ScenarioError::LidarFieldOfView,
        ),
        both(
            rule(
                config.max_range_m.is_finite() && config.max_range_m.is_positive(),
                ScenarioError::LidarRange,
            ),
            both(
                rule(config.scan_duration_ns >= 0, ScenarioError::LidarScanDuration),
                rule(
                    config.detection_probability.is_probability(),
                    ScenarioError::LidarDetectionProbability,
                ),
            ),
        ),
    )
}

/// Tests what the lidar can see and how long a scan takes.
pub fn validate_lidar(config: &LidarConfig) -> (verdict: Result<(), ScenarioError>)
    ensures
        verdict == lidar_verdict(*config),
{
    check(
        config.horizontal_fov_rad.is_positive() && config.horizontal_fov_rad.at_most(
            Binary64 { bits: TAU },
        ),
        ScenarioError::LidarFieldOfView,
    )?;
    check(
        config.max_range_m.is_finite() && config.max_range_m.is_positive(),
        ScenarioError::LidarRange,
    )?;
    check(config.scan_duration_ns >= 0, ScenarioError::LidarScanDuration)?;
    check(config.detection_probability.is_probability(), ScenarioError::LidarDetectionProbability)
}

/// Whether the object at `index` has a name of its own: not empty, and not that of an earlier one.
pub open spec fn object_id_is_new(objects: Seq<ObjectConfig>, index: int) -> bool {
    &&& objects[index].id@.len() > 0
    &&& forall|i: int| 0 <= i < index ==> (#[trigger] objects[i]).id@ != objects[index].id@
}

pub open spec fn object_verdict(objects: Seq<ObjectConfig>, index: int) -> Result<
    (),
    ScenarioError,
> {
    both(
        rule(object_id_is_new(objects, index), ScenarioError::ObjectId),
        rule(
            objects[index].initial_position_m.finite()
                && objects[index].velocity_world_mps.finite(),
            ScenarioError::ObjectState { object: index as usize },
        ),
    )
}

/// The verdict on the first `count` objects, one after the other.
pub open spec fn objects_verdict(objects: Seq<ObjectConfig>, count: int) -> Result<
    (),
    ScenarioError,
>
    decreases count,
{
    if count <= 0 {
        Ok(())
    } else {
        both(objects_verdict(objects, count - 1), object_verdict(objects, count - 1))
    }
}

pub open spec fn world_verdict(objects: Seq<ObjectConfig>) -> Result<(), ScenarioError> {
    both(
        rule(objects.len() > 0, ScenarioError::NoObjects),
        objects_verdict(objects, objects.len() as int),
    )
}

proof fn lemma_objects_verdict_stays(objects: Seq<ObjectConfig>, count: int, end: int)
    requires
        0 <= count <= end,
        objects_verdict(objects, count) is Err,
    ensures
        objects_verdict(objects, end) == objects_verdict(objects, count),
    decreases end,
{
    if count < end {
        lemma_objects_verdict_stays(objects, count, end - 1);
    }
}

/// Tests the objects of the world in their order.
pub fn validate_world(objects: &Vec<ObjectConfig>) -> (verdict: Result<(), ScenarioError>)
    ensures
        verdict == world_verdict(objects@),
{
    check(objects.len() > 0, ScenarioError::NoObjects)?;
    let mut index: usize = 0;
    while index < objects.len()
        invariant
            index <= objects.len(),
            objects_verdict(objects@, index as int) is Ok,
        decreases objects.len() - index,
    {
        let object = &objects[index];
        let mut new = !object.id.as_str().is_empty();
        let mut earlier: usize = 0;
        while earlier < index
            invariant
                index < objects.len(),
                earlier <= index,
                object == &objects[index as int],
                new == (object.id@.len() > 0 && forall|i: int|
                    0 <= i < earlier ==> (#[trigger] objects@[i]).id@ != object.id@),
            decreases index - earlier,
        {
            if objects[earlier].id == object.id {
                new = false;
            }
            earlier = earlier + 1;
        }
        let verdict = check(new, ScenarioError::ObjectId);
        let verdict = if verdict.is_err() {
            verdict
        } else {
            check(
                object.initial_position_m.finite() && object.velocity_world_mps.finite(),
                ScenarioError::ObjectState { object: index },
            )
        };
        assert(verdict == object_verdict(objects@, index as int));
        index = index + 1;
        if verdict.is_err() {
            proof {
                lemma_objects_verdict_stays(objects@, index as int, objects.len() as int);
            }
            return verdict;
        }
    }
    Ok(())
}

/// Whether the segment at `index` has a name of its own: not empty, and not that of an earlier
/// one.
pub open spec fn segment_id_is_new(trajectory: Seq<MotionSegment>, index: int) -> bool {
    &&& trajectory[index].id@.len() > 0
    &&& forall|i: int|
        0 <= i < index ==> (#[trigger] trajectory[i]).id@ != trajectory[index].id@
}

pub open spec fn segment_verdict(
    trajectory: Seq<MotionSegment>,
    forward_speed_mps: Seq<Binary64>,
    index: int,
) -> Result<(), ScenarioError> {
    let segment = trajectory[index];
    both(
        rule(segment_id_is_new(trajectory, index), ScenarioError::SegmentId),
        both(
            rule(
                segment.duration_s.is_finite() && segment.duration_s.is_positive(),
                ScenarioError::SegmentDuration { segment: index as usize },
            ),
            both(
                rule(
                    segment.longitudinal_acceleration_mps2.is_finite()
                        && segment.yaw_rate_radps.is_finite(),
                    ScenarioError::SegmentMotion { segment: index as usize },
                ),
                rule(
                    (Binary64 { bits: LOWEST_SPEED_MPS }).at_most(forward_speed_mps[index]),
                    ScenarioError::SegmentSpeed { segment: index as usize },
                ),
            ),
        ),
    )
}

/// The verdict on the first `count` segments, one after the other.
pub open spec fn segments_verdict(
    trajectory: Seq<MotionSegment>,
    forward_speed_mps: Seq<Binary64>,
    count: int,
) -> Result<(), ScenarioError>
    decreases count,
{
    if count <= 0 {
        Ok(())
    } else {
        both(
            segments_verdict(trajectory, forward_speed_mps, count - 1),
            segment_verdict(trajectory, forward_speed_mps, count - 1),
        )
    }
}

pub open spec fn trajectory_verdict(
    trajectory: Seq<MotionSegment>,
    forward_speed_mps: Seq<Binary64>,
) -> Result<(), ScenarioError> {
    both(
        rule(trajectory.len() > 0, ScenarioError::NoSegments),
        segments_verdict(trajectory, forward_speed_mps, trajectory.len() as int),
    )
}

proof fn lemma_segments_verdict_stays(
    trajectory: Seq<MotionSegment>,
    forward_speed_mps: Seq<Binary64>,
    count: int,
    end: int,
)
    requires
        0 <= count <= end,
        segments_verdict(trajectory, forward_speed_mps, count) is Err,
    ensures
        segments_verdict(trajectory, forward_speed_mps, end) == segments_verdict(
            trajectory,
            forward_speed_mps,
            count,
        ),
    decreases end,
{
    if count < end {
        lemma_segments_verdict_stays(trajectory, forward_speed_mps, count, end - 1);
    }
}

/// Tests the segments of the trajectory in their order, given the forward speed after each.
pub fn validate_trajectory(
    trajectory: &Vec<MotionSegment>,
    forward_speed_mps: &Vec<Binary64>,
) -> (verdict: Result<(), ScenarioError>)
    requires
        forward_speed_mps.len() == trajectory.len(),
    ensures
        verdict == trajectory_verdict(trajectory@, forward_speed_mps@),
{
    check(trajectory.len() > 0, ScenarioError::NoSegments)?;
    let mut index: usize = 0;
    while index < trajectory.len()
        invariant
            index <= trajectory.len(),
            forward_speed_mps.len() == trajectory.len(),
            segments_verdict(trajectory@, forward_speed_mps@, index as int) is Ok,
        decreases trajectory.len() - index,
    {
        let verdict = validate_segment(trajectory, forward_speed_mps, index);
        index = index + 1;
        if verdict.is_err() {
            proof {
                lemma_segments_verdict_stays(
                    trajectory@,
                    forward_speed_mps@,
                    index as int,
                    trajectory.len() as int,
                );
            }
            return verdict;
        }
    }
    Ok(())
}

fn validate_segment(
    trajectory: &Vec<MotionSegment>,
    forward_speed_mps: &Vec<Binary64>,
    index: usize,
) -> (verdict: Result<(), ScenarioError>)
    requires
        index < trajectory.len(),
        forward_speed_mps.len() == trajectory.len(),
    ensures
        verdict == segment_verdict(trajectory@, forward_speed_mps@, index as int),
{
    let segment = &trajectory[index];
    let mut new = !segment.id.as_str().is_empty();
    let mut earlier: usize = 0;
    while earlier < index
        invariant
            index < trajectory.len(),
            earlier <= index,
            segment == &trajectory[index as int],
            new == (segment.id@.len() > 0 && forall|i: int|
                0 <= i < earlier ==> (#[trigger] trajectory@[i]).id@ != segment.id@),
        decreases index - earlier,
    {
        if trajectory[earlier].id == segment.id {
            new = false;
        }
        earlier = earlier + 1;
    }
    check(new, ScenarioError::SegmentId)?;
    check(
        segment.duration_s.is_finite() && segment.duration_s.is_positive(),
        ScenarioError::SegmentDuration { segment: index },
    )?;
    check(
        segment.longitudinal_acceleration_mps2.is_finite() && segment.yaw_rate_radps.is_finite(),
        ScenarioError::SegmentMotion { segment: index },
    )?;
    check(
        (Binary64 { bits: LOWEST_SPEED_MPS }).at_most(forward_speed_mps[index]),
        ScenarioError::SegmentSpeed { segment: index },
    )
}

pub open spec fn parameter_verdict(value: Binary64, parameter: EstimatorParameter) -> Result<
    (),
    ScenarioError,
> {
    rule(value.is_finite() && value.is_positive(), ScenarioError::Estimator(parameter))
}

fn validate_parameter(value: Binary64, parameter: EstimatorParameter) -> (verdict: Result<
    (),
    ScenarioError,
>)
    ensures
        verdict == parameter_verdict(value, parameter),
{
    check(value.is_finite() && value.is_positive(), ScenarioError::Estimator(parameter))
}

/// The quantities of the estimators that have to be finite and above zero, in test order.
pub open spec fn estimator_quantities(scenario: ResolvedScenario) -> Seq<
    (Binary64, EstimatorParameter),
> {
    let ego = scenario.ego_estimator;
    let tracker = scenario.object_tracker;
    seq![
        (ego.gps_gate_sigma, EstimatorParameter::GpsGate),
        (ego.initial_position_stddev_m, EstimatorParameter::InitialPosition),
        (ego.initial_yaw_stddev_rad, EstimatorParameter::InitialYaw),
        (ego.initial_speed_stddev_mps, EstimatorParameter::InitialSpeed),
        (ego.initial_gyro_bias_stddev_radps, EstimatorParameter::InitialGyroBias),
        (ego.initial_accel_bias_stddev_mps2, EstimatorParameter::InitialAccelerometerBias),
        (tracker.acceleration_noise_stddev_mps2, EstimatorParameter::TrackerAcceleration),
        (tracker.gate_sigma, EstimatorParameter::TrackerGate),
        (tracker.max_time_without_update_s, EstimatorParameter::TrackerMaximumSilence),
        (
            scenario.metrics.track_truth_match_max_distance_m,
            EstimatorParameter::TrackTruthDistance,
        ),
    ]
}

/// The verdict on the first `count` of `quantities`, one after the other.
pub open spec fn parameters_verdict(
    quantities: Seq<(Binary64, EstimatorParameter)>,
    count: int,
) -> Result<(), ScenarioError>
    decreases count,
{
    if count <= 0 {
        Ok(())
    } else {
        both(
            parameters_verdict(quantities, count - 1),
            parameter_verdict(quantities[count - 1].0, quantities[count - 1].1),
        )
    }
}

pub open spec fn estimators_verdict(scenario: ResolvedScenario) -> Result<(), ScenarioError> {
    let quantities = estimator_quantities(scenario);
    both(
        rule(
            scenario.ego_estimator.history_duration_ns >= 0
                && scenario.object_tracker.history_duration_ns >= 0,
            ScenarioError::HistoryDuration,
        ),
        both(
            parameters_verdict(quantities, quantities.len() as int),
            both(
                rule(scenario.metrics.max_truth_match_gap_ns >= 0, ScenarioError::TruthMatchGap),
                both(
                    rule(
                        scenario.object_tracker.confirmation_hits > 0,
                        ScenarioError::ConfirmationHits,
                    ),
                    rule(
                        scenario.metrics.ego_divergence_position_error_m.is_positive()
                            && scenario.metrics.track_divergence_position_error_m.is_positive(),
                        ScenarioError::ErrorThresholds,
                    ),
                ),
            ),
        ),
    )
}

/// Tests the settings of the estimators and of their evaluation.
pub fn validate_estimators(scenario: &ResolvedScenario) -> (verdict: Result<(), ScenarioError>)
    ensures
        verdict == estimators_verdict(*scenario),
{
    let ego = &scenario.ego_estimator;
    let tracker = &scenario.object_tracker;
    proof {
        reveal_with_fuel(parameters_verdict, 11);
    }
    check(
        ego.history_duration_ns >= 0 && tracker.history_duration_ns >= 0,
        ScenarioError::HistoryDuration,
    )?;
    validate_parameter(ego.gps_gate_sigma, EstimatorParameter::GpsGate)?;
    validate_parameter(ego.initial_position_stddev_m, EstimatorParameter::InitialPosition)?;
    validate_parameter(ego.initial_yaw_stddev_rad, EstimatorParameter::InitialYaw)?;
    validate_parameter(ego.initial_speed_stddev_mps, EstimatorParameter::InitialSpeed)?;
    validate_parameter(ego.initial_gyro_bias_stddev_radps, EstimatorParameter::InitialGyroBias)?;
    validate_parameter(
        ego.initial_accel_bias_stddev_mps2,
        EstimatorParameter::InitialAccelerometerBias,
    )?;
    validate_parameter(
        tracker.acceleration_noise_stddev_mps2,
        EstimatorParameter::TrackerAcceleration,
    )?;
    validate_parameter(tracker.gate_sigma, EstimatorParameter::TrackerGate)?;
    validate_parameter(
        tracker.max_time_without_update_s,
        EstimatorParameter::TrackerMaximumSilence,
    )?;
    validate_parameter(
        scenario.metrics.track_truth_match_max_distance_m,
        EstimatorParameter::TrackTruthDistance,
    )?;
    check(scenario.metrics.max_truth_match_gap_ns >= 0, ScenarioError::TruthMatchGap)?;
    check(tracker.confirmation_hits > 0, ScenarioError::ConfirmationHits)?;
    check(
        scenario.metrics.ego_divergence_position_error_m.is_positive()
            && scenario.metrics.track_divergence_position_error_m.is_positive(),
        ScenarioError::ErrorThresholds,
    )
}

/// The quantities of the sensors that have to be finite and at least zero, in test order.
pub open spec fn noise_quantities(scenario: ResolvedScenario) -> Seq<(Binary64, NoiseParameter)> {
    seq![
        (scenario.imu.gyro_white_noise_density_radps_sqrt_hz, NoiseParameter::Gyro),
        (scenario.imu.accel_white_noise_density_mps2_sqrt_hz, NoiseParameter::Accelerometer),
        (scenario.imu.gyro_bias_random_walk_radps_sqrt_s, NoiseParameter::GyroBiasWalk),
        (scenario.imu.accel_bias_random_walk_mps2_sqrt_s, NoiseParameter::AccelerometerBiasWalk),
        (scenario.gps.horizontal_position_stddev_m, NoiseParameter::Gps),
        (scenario.gps.outlier_stddev_m, NoiseParameter::GpsOutlier),
        (scenario.camera.bearing_noise_stddev_rad, NoiseParameter::CameraBearing),
        (scenario.lidar.range_noise_stddev_m, NoiseParameter::LidarRange),
        (scenario.lidar.bearing_noise_stddev_rad, NoiseParameter::LidarBearing),
    ]
}

/// The verdict on the first `count` of `quantities`, one after the other.
pub open spec fn noises_verdict(quantities: Seq<(Binary64, NoiseParameter)>, count: int) -> Result<
    (),
    ScenarioError,
>
    decreases count,
{
    if count <= 0 {
        Ok(())
    } else {
        both(
            noises_verdict(quantities, count - 1),
            noise_verdict(quantities[count - 1].0, quantities[count - 1].1),
        )
    }
}

fn validate_noises(scenario: &ResolvedScenario) -> (verdict: Result<(), ScenarioError>)
    ensures
        verdict == noises_verdict(noise_quantities(*scenario), 9),
{
    proof {
        reveal_with_fuel(noises_verdict, 10);
    }
    let imu = &scenario.imu;
    validate_noise(imu.gyro_white_noise_density_radps_sqrt_hz, NoiseParameter::Gyro)?;
    validate_noise(imu.accel_white_noise_density_mps2_sqrt_hz, NoiseParameter::Accelerometer)?;
    validate_noise(imu.gyro_bias_random_walk_radps_sqrt_s, NoiseParameter::GyroBiasWalk)?;
    validate_noise(imu.accel_bias_random_walk_mps2_sqrt_s, NoiseParameter::AccelerometerBiasWalk)?;
    validate_noise(scenario.gps.horizontal_position_stddev_m, NoiseParameter::Gps)?;
    validate_noise(scenario.gps.outlier_stddev_m, NoiseParameter::GpsOutlier)?;
    validate_noise(scenario.camera.bearing_noise_stddev_rad, NoiseParameter::CameraBearing)?;
    validate_noise(scenario.lidar.range_noise_stddev_m, NoiseParameter::LidarRange)?;
    validate_noise(scenario.lidar.bearing_noise_stddev_rad, NoiseParameter::LidarBearing)
}

pub open spec fn sensors_verdict(
    scenario: ResolvedScenario,
    arithmetic: ScenarioArithmetic,
) -> Result<(), ScenarioError> {
    both(
        sensor_verdict(
            SensorKind::Imu,
            scenario.imu.enabled,
            scenario.imu.rate_hz,
            arithmetic.imu_period_error_ns,
            scenario.imu.latency_ns,
        ),
        both(
            sensor_verdict(
                SensorKind::Gps,
                scenario.gps.enabled,
                scenario.gps.rate_hz,
                arithmetic.gps_period_error_ns,
                scenario.gps.latency_ns,
            ),
            both(
                sensor_verdict(
                    SensorKind::Camera,
                    scenario.camera.enabled,
                    scenario.camera.rate_hz,
                    arithmetic.camera_period_error_ns,
                    scenario.camera.latency_ns,
                ),
                sensor_verdict(
                    SensorKind::Lidar,
                    scenario.lidar.enabled,
                    scenario.lidar.rate_hz,
                    arithmetic.lidar_period_error_ns,
                    scenario.lidar.latency_ns,
                ),
            ),
        ),
    )
}

fn validate_sensors(scenario: &ResolvedScenario, arithmetic: &ScenarioArithmetic) -> (verdict:
    Result<(), ScenarioError>)
    ensures
        verdict == sensors_verdict(*scenario, *arithmetic),
{
    validate_sensor(
        SensorKind::Imu,
        scenario.imu.enabled,
        scenario.imu.rate_hz,
        arithmetic.imu_period_error_ns,
        scenario.imu.latency_ns,
    )?;
    validate_sensor(
        SensorKind::Gps,
        scenario.gps.enabled,
        scenario.gps.rate_hz,
        arithmetic.gps_period_error_ns,
        scenario.gps.latency_ns,
    )?;
    validate_sensor(
        SensorKind::Camera,
        scenario.camera.enabled,
        scenario.camera.rate_hz,
        arithmetic.camera_period_error_ns,
        scenario.camera.latency_ns,
    )?;
    validate_sensor(
        SensorKind::Lidar,
        scenario.lidar.enabled,
        scenario.lidar.rate_hz,
        arithmetic.lidar_period_error_ns,
        scenario.lidar.latency_ns,
    )
}

/// The verdict on a scenario: the first rule that it breaks, in test order.
pub open spec fn scenario_verdict(
    scenario: ResolvedScenario,
    arithmetic: ScenarioArithmetic,
) -> Result<(), ScenarioError> {
    both(
        rule(
            scenario.motion_speed_factor.is_finite() && scenario.motion_speed_factor.is_positive(),
            ScenarioError::MotionSpeedFactor,
        ),
        both(
            rule(scenario.imu.enabled, ScenarioError::ImuDisabled),
            both(
                sensors_verdict(scenario, arithmetic),
                both(
                    rule(scenario.imu.clock_offset_ns >= 0, ScenarioError::NegativeClockOffset),
                    both(
                        noises_verdict(noise_quantities(scenario), 9),
                        both(
                            camera_verdict(scenario.camera),
                            both(
                                rule(
                                    scenario.gps.outlier_probability.is_probability(),
                                    ScenarioError::GpsOutlierProbability,
                                ),
                                both(
                                    lidar_verdict(scenario.lidar),
                                    both(
                                        world_verdict(scenario.world.objects@),
                                        both(
                                            trajectory_verdict(
                                                scenario.trajectory@,
                                                arithmetic.forward_speed_mps@,
                                            ),
                                            estimators_verdict(scenario),
                                        ),
                                    ),
                                ),
                            ),
                        ),
                    ),
                ),
            ),
        ),
    )
}

/// Tests a scenario against all rules and names the first that it breaks.
pub fn validate(scenario: &ResolvedScenario, arithmetic: &ScenarioArithmetic) -> (verdict: Result<
    (),
    ScenarioError,
>)
    requires
        arithmetic.forward_speed_mps.len() == scenario.trajectory.len(),
    ensures
        verdict == scenario_verdict(*scenario, *arithmetic),
{
    check(
        scenario.motion_speed_factor.is_finite() && scenario.motion_speed_factor.is_positive(),
        ScenarioError::MotionSpeedFactor,
    )?;
    check(scenario.imu.enabled, ScenarioError::ImuDisabled)?;
    validate_sensors(scenario, arithmetic)?;
    check(scenario.imu.clock_offset_ns >= 0, ScenarioError::NegativeClockOffset)?;
    validate_noises(scenario)?;
    validate_detection_sensor(&scenario.camera)?;
    check(
        scenario.gps.outlier_probability.is_probability(),
        ScenarioError::GpsOutlierProbability,
    )?;
    validate_lidar(&scenario.lidar)?;
    validate_world(&scenario.world.objects)?;
    validate_trajectory(&scenario.trajectory, &arithmetic.forward_speed_mps)?;
    validate_estimators(scenario)
}

} // verus!
