//! What sensors deliver and what estimators answer.
use vstd::prelude::*;

use crate::binary64::Binary64;

verus! {

/// When something was measured, and when it was delivered.
#[derive(Debug, Clone, Copy, PartialEq, Eq, Structural)]
pub struct MeasurementTime {
    pub measurement_time_ns: i64,
    pub arrival_time_ns: i64,
}

#[derive(Debug, Clone, Copy, PartialEq, Eq, Structural)]
pub struct Vec2 {
    pub x: Binary64,
    pub y: Binary64,
}

#[derive(Debug, Clone, Copy, PartialEq, Eq, Structural)]
pub struct Pose2 {
    pub position: Option<Vec2>,
    pub yaw_rad: Binary64,
}

#[derive(Debug, Clone, Copy, PartialEq, Eq, Structural)]
pub struct ImuSample {
    pub time: Option<MeasurementTime>,
    pub yaw_rate_radps: Binary64,
    pub forward_acceleration_mps2: Binary64,
}

#[derive(Debug, Clone, Copy, PartialEq, Eq, Structural)]
pub struct GpsFix {
    pub time: Option<MeasurementTime>,
    pub position_world_m: Option<Vec2>,
    pub horizontal_position_variance_m2: Binary64,
}

/// A camera frame; what it shows stays in its serialized form.
#[derive(Debug, Clone)]
pub struct CameraFrame {
    pub time: Option<MeasurementTime>,
    pub content: Vec<u8>,
}

/// A lidar scan; what it shows stays in its serialized form.
#[derive(Debug, Clone)]
pub struct LidarScan {
    pub time: Option<MeasurementTime>,
    pub content: Vec<u8>,
}

/// The state of the vehicle as a filter sees it. The covariance is stored row by row.
#[derive(Debug, Clone)]
pub struct EgoStateEstimate {
    pub estimate_time_ns: i64,
    pub available_time_ns: i64,
    pub pose_world: Option<Pose2>,
    pub forward_speed_mps: Binary64,
    pub state_covariance: Vec<Binary64>,
    pub gyro_bias_z_radps: Option<Binary64>,
    pub accel_bias_x_mps2: Option<Binary64>,
}

/// The true state of the vehicle at a time; the state itself stays in its serialized form.
#[derive(Debug, Clone)]
pub struct EgoTruthState {
    pub time_ns: i64,
    pub content: Vec<u8>,
}

/// The true state of an object at a time; the state itself stays in its serialized form.
#[derive(Debug, Clone)]
pub struct ObjectTruthState {
    pub time_ns: i64,
    pub content: Vec<u8>,
}

/// The true biases of the IMU at a time; the biases themselves stay in their serialized form.
#[derive(Debug, Clone)]
pub struct ImuBiasTruth {
    pub time_ns: i64,
    pub content: Vec<u8>,
}

/// The tracks at a time; the tracks themselves stay in their serialized form.
#[derive(Debug, Clone)]
pub struct ObjectTrackFrame {
    pub estimate_time_ns: i64,
    pub available_time_ns: i64,
    pub content: Vec<u8>,
}

} // verus!
