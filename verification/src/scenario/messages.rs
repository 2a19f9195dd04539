//! The words for a rule that a scenario breaks.
use vstd::prelude::*;

use crate::pipeline::SensorKind;

use super::rules::{EstimatorParameter, NoiseParameter, ScenarioError};
use super::ResolvedScenario;

verus! {

pub open spec fn sensor_name(sensor: SensorKind) -> Seq<char> {
    match sensor {
        SensorKind::Imu => "imu"@,
        SensorKind::Gps => "gps"@,
        SensorKind::Camera => "camera"@,
        SensorKind::Lidar => "lidar"@,
    }
}

fn sensor_word(sensor: SensorKind) -> (word: &'static str)
    ensures
        word@ == sensor_name(sensor),
{
    match sensor {
        SensorKind::Imu => "imu",
        SensorKind::Gps => "gps",
        SensorKind::Camera => "camera",
        SensorKind::Lidar => "lidar",
    }
}

impl NoiseParameter {
    pub open spec fn spec_name(self) -> Seq<char> {
        match self {
            NoiseParameter::Gyro => "gyro noise"@,
            NoiseParameter::Accelerometer => "accelerometer noise"@,
            NoiseParameter::GyroBiasWalk => "gyro bias walk"@,
            NoiseParameter::AccelerometerBiasWalk => "accelerometer bias walk"@,
            NoiseParameter::Gps => "GPS noise"@,
            NoiseParameter::GpsOutlier => "GPS outlier size"@,
            NoiseParameter::CameraBearing => "camera bearing noise"@,
            NoiseParameter::LidarRange => "lidar range noise"@,
            NoiseParameter::LidarBearing => "lidar bearing noise"@,
        }
    }

    pub fn name(self) -> (name: &'static str)
        ensures
            name@ == self.spec_name(),
    {
        match self {
            NoiseParameter::Gyro => "gyro noise",
            NoiseParameter::Accelerometer => "accelerometer noise",
            NoiseParameter::GyroBiasWalk => "gyro bias walk",
            NoiseParameter::AccelerometerBiasWalk => "accelerometer bias walk",
            NoiseParameter::Gps => "GPS noise",
            NoiseParameter::GpsOutlier => "GPS outlier size",
            NoiseParameter::CameraBearing => "camera bearing noise",
            NoiseParameter::LidarRange => "lidar range noise",
            NoiseParameter::LidarBearing => "lidar bearing noise",
        }
    }
}

impl EstimatorParameter {
    pub open spec fn spec_name(self) -> Seq<char> {
        match self {
            EstimatorParameter::GpsGate => "GPS gate"@,
            EstimatorParameter::InitialPosition => "initial position uncertainty"@,
            EstimatorParameter::InitialYaw => "initial yaw uncertainty"@,
            EstimatorParameter::InitialSpeed => "initial speed uncertainty"@,
            EstimatorParameter::InitialGyroBias => "initial gyro bias uncertainty"@,
            EstimatorParameter::InitialAccelerometerBias =>
                "initial accelerometer bias uncertainty"@,
            EstimatorParameter::TrackerAcceleration => "tracker acceleration noise"@,
            EstimatorParameter::TrackerGate => "tracker gate"@,
            EstimatorParameter::TrackerMaximumSilence =>
                "tracker maximum time without an update"@,
            EstimatorParameter::TrackTruthDistance => "track truth match distance"@,
        }
    }

    pub fn name(self) -> (name: &'static str)
        ensures
            name@ == self.spec_name(),
    {
        match self {
            EstimatorParameter::GpsGate => "GPS gate",
            EstimatorParameter::InitialPosition => "initial position uncertainty",
            EstimatorParameter::InitialYaw => "initial yaw uncertainty",
            EstimatorParameter::InitialSpeed => "initial speed uncertainty",
            EstimatorParameter::InitialGyroBias => "initial gyro bias uncertainty",
            EstimatorParameter::InitialAccelerometerBias =>
                "initial accelerometer bias uncertainty",
            EstimatorParameter::TrackerAcceleration => "tracker acceleration noise",
            EstimatorParameter::TrackerGate => "tracker gate",
            EstimatorParameter::TrackerMaximumSilence => "tracker maximum time without an update",
            EstimatorParameter::TrackTruthDistance => "track truth match distance",
        }
    }
}

fn followed(first: &str, second: &str) -> (text: String)
    ensures
        text@ == first@ + second@,
{
    let mut text = first.to_owned();
    text.append(second);
    text
}

fn joined(first: &str, second: &str, third: &str) -> (text: String)
    ensures
        text@ == first@ + second@ + third@,
{
    let mut text = first.to_owned();
    text.append(second);
    text.append(third);
    text
}

impl ScenarioError {
    /// Whether the object or segment that the error names is part of the scenario.
    pub open spec fn is_about(self, scenario: ResolvedScenario) -> bool {
        match self {
            ScenarioError::ObjectState { object } => object < scenario.world.objects@.len(),
            ScenarioError::SegmentDuration { segment } => segment < scenario.trajectory@.len(),
            ScenarioError::SegmentMotion { segment } => segment < scenario.trajectory@.len(),
            ScenarioError::SegmentSpeed { segment } => segment < scenario.trajectory@.len(),
            _ => true,
        }
    }

    pub open spec fn spec_message(self, scenario: ResolvedScenario) -> Seq<char> {
        match self {
            ScenarioError::MotionSpeedFactor => "motion_speed_factor must be positive"@,
            ScenarioError::ImuDisabled => "the vehicle estimator requires the IMU"@,
            ScenarioError::RateNotPositive { sensor } => sensor_name(sensor)
                + " rate must be positive"@,
            ScenarioError::RateNotWholeNanoseconds { sensor } => sensor_name(sensor)
                + " rate must map to an integer nanosecond period"@,
            ScenarioError::NegativeLatency { sensor } => sensor_name(sensor)
                + " latency must be nonnegative"@,
            ScenarioError::NegativeClockOffset => "IMU clock offset must be nonnegative"@,
            ScenarioError::Noise(parameter) => parameter.spec_name()
                + " must be finite and nonnegative"@,
            ScenarioError::CameraFieldOfView => "camera field of view must be in (0, 2pi]"@,
            ScenarioError::CameraRange => "camera range must be positive"@,
            ScenarioError::CameraDetectionProbability =>
                "camera detection probability must be in [0, 1]"@,
            ScenarioError::GpsOutlierProbability => "GPS outlier probability must be in [0, 1]"@,
            ScenarioError::LidarFieldOfView => "lidar field of view must be in (0, 2pi]"@,
            ScenarioError::LidarRange => "lidar range must be positive"@,
            ScenarioError::LidarScanDuration => "lidar scan duration must be nonnegative"@,
            ScenarioError::LidarDetectionProbability =>
                "lidar detection probability must be in [0, 1]"@,
            ScenarioError::NoObjects => "world must contain at least one object"@,
            ScenarioError::ObjectId => "object IDs must be nonempty and unique"@,
            ScenarioError::ObjectState { object } => "object "@
                + scenario.world.objects@[object as int].id@ + " state must be finite"@,
            ScenarioError::NoSegments => "trajectory must contain at least one segment"@,
            ScenarioError::SegmentId => "trajectory IDs must be nonempty and unique"@,
            ScenarioError::SegmentDuration { segment } => "segment "@
                + scenario.trajectory@[segment as int].id@ + " duration must be positive"@,
            ScenarioError::SegmentMotion { segment } => "segment "@
                + scenario.trajectory@[segment as int].id@ + " motion must be finite"@,
            ScenarioError::SegmentSpeed { segment } => "segment "@
                + scenario.trajectory@[segment as int].id@
                + " produces a negative forward speed"@,
            ScenarioError::HistoryDuration => "history durations must be nonnegative"@,
            ScenarioError::Estimator(parameter) => parameter.spec_name()
                + " must be positive and finite"@,
            ScenarioError::TruthMatchGap => "truth match gap must be nonnegative"@,
            ScenarioError::ConfirmationHits => "tracker confirmation hits must be positive"@,
            ScenarioError::ErrorThresholds => "error thresholds must be positive"@,
        }
    }

    /// The error in words.
    pub fn message(&self, scenario: &ResolvedScenario) -> (text: String)
        requires
            self.is_about(*scenario),
        ensures
            text@ == self.spec_message(*scenario),
    {
        match *self {
            ScenarioError::MotionSpeedFactor => "motion_speed_factor must be positive".to_owned(),
            ScenarioError::ImuDisabled => "the vehicle estimator requires the IMU".to_owned(),
            ScenarioError::RateNotPositive { sensor } => followed(
                sensor_word(sensor),
                " rate must be positive",
            ),
            ScenarioError::RateNotWholeNanoseconds { sensor } => followed(
                sensor_word(sensor),
                " rate must map to an integer nanosecond period",
            ),
            ScenarioError::NegativeLatency { sensor } => followed(
                sensor_word(sensor),
                " latency must be nonnegative",
            ),
            ScenarioError::NegativeClockOffset =>
                "IMU clock offset must be nonnegative".to_owned(),
            ScenarioError::Noise(parameter) => followed(
                parameter.name(),
                " must be finite and nonnegative",
            ),
            ScenarioError::CameraFieldOfView =>
                "camera field of view must be in (0, 2pi]".to_owned(),
            ScenarioError::CameraRange => "camera range must be positive".to_owned(),
            ScenarioError::CameraDetectionProbability =>
                "camera detection probability must be in [0, 1]".to_owned(),
            ScenarioError::GpsOutlierProbability =>
                "GPS outlier probability must be in [0, 1]".to_owned(),
            ScenarioError::LidarFieldOfView =>
                "lidar field of view must be in (0, 2pi]".to_owned(),
            ScenarioError::LidarRange => "lidar range must be positive".to_owned(),
            ScenarioError::LidarScanDuration =>
                "lidar scan duration must be nonnegative".to_owned(),
            ScenarioError::LidarDetectionProbability =>
                "lidar detection probability must be in [0, 1]".to_owned(),
            ScenarioError::NoObjects => "world must contain at least one object".to_owned(),
            ScenarioError::ObjectId => "object IDs must be nonempty and unique".to_owned(),
            ScenarioError::ObjectState { object } => joined(
                "object ",
                scenario.world.objects[object].id.as_str(),
                " state must be finite",
            ),
            ScenarioError::NoSegments =>
                "trajectory must contain at least one segment".to_owned(),
            ScenarioError::SegmentId => "trajectory IDs must be nonempty and unique".to_owned(),
            ScenarioError::SegmentDuration { segment } => joined(
                "segment ",
                scenario.trajectory[segment].id.as_str(),
                " duration must be positive",
            ),
            ScenarioError::SegmentMotion { segment } => joined(
                "segment ",
                scenario.trajectory[segment].id.as_str(),
                " motion must be finite",
            ),
            ScenarioError::SegmentSpeed { segment } => joined(
                "segment ",
                scenario.trajectory[segment].id.as_str(),
                " produces a negative forward speed",
            ),
            ScenarioError::HistoryDuration => "history durations must be nonnegative".to_owned(),
            ScenarioError::Estimator(parameter) => followed(
                parameter.name(),
                " must be positive and finite",
            ),
            ScenarioError::TruthMatchGap => "truth match gap must be nonnegative".to_owned(),
            ScenarioError::ConfirmationHits =>
                "tracker confirmation hits must be positive".to_owned(),
            ScenarioError::ErrorThresholds => "error thresholds must be positive".to_owned(),
        }
    }
}

} // verus!
