//! The description of an experiment, and the rules that it has to meet.
//!
//! Quantities in double precision are held by their encoding. The rules compare them; what takes
//! arithmetic in double precision comes in as [`ScenarioArithmetic`].
pub mod defaults;
pub mod laws;
mod messages;
pub mod rule_laws;
pub mod rules;

use vstd::prelude::*;

use crate::binary64::Binary64;

pub use self::rules::{
    validate, EstimatorParameter, NoiseParameter, ScenarioArithmetic, ScenarioError,
};

verus! {

#[derive(Debug, Clone)]
pub struct ResolvedScenario {
    pub root_seed: u64,
    pub motion_speed_factor: Binary64,
    pub world: WorldConfig,
    pub trajectory: Vec<MotionSegment>,
    pub imu: ImuConfig,
    pub gps: GpsConfig,
    pub camera: CameraConfig,
    pub lidar: LidarConfig,
    pub ego_estimator: EgoEstimatorConfig,
    pub object_tracker: ObjectTrackerConfig,
    pub metrics: MetricsConfig,
}

#[derive(Debug, Clone)]
pub struct WorldConfig {
    pub objects: Vec<ObjectConfig>,
}

#[derive(Debug, Clone)]
pub struct ObjectConfig {
    pub id: String,
    pub initial_position_m: Vec2Config,
    pub velocity_world_mps: Vec2Config,
}

#[derive(Debug, Clone)]
pub struct MotionSegment {
    pub id: String,
    pub duration_s: Binary64,
    pub longitudinal_acceleration_mps2: Binary64,
    pub yaw_rate_radps: Binary64,
}

#[derive(Debug, Clone, Copy, PartialEq, Eq, Structural)]
pub struct Vec2Config {
    pub x: Binary64,
    pub y: Binary64,
}

#[derive(Debug, Clone, Copy, PartialEq, Eq, Structural)]
pub struct ImuConfig {
    pub enabled: bool,
    pub rate_hz: Binary64,
    pub latency_ns: i64,
    pub clock_offset_ns: i64,
    pub gyro_white_noise_density_radps_sqrt_hz: Binary64,
    pub accel_white_noise_density_mps2_sqrt_hz: Binary64,
    pub gyro_bias_radps: Binary64,
    pub accel_bias_mps2: Binary64,
    pub gyro_bias_random_walk_radps_sqrt_s: Binary64,
    pub accel_bias_random_walk_mps2_sqrt_s: Binary64,
}

#[derive(Debug, Clone, Copy, PartialEq, Eq, Structural)]
pub struct GpsConfig {
    pub enabled: bool,
    pub rate_hz: Binary64,
    pub latency_ns: i64,
    pub horizontal_position_stddev_m: Binary64,
    pub outlier_probability: Binary64,
    pub outlier_stddev_m: Binary64,
    pub dropout_start_s: Option<Binary64>,
    pub dropout_end_s: Option<Binary64>,
}

#[derive(Debug, Clone, Copy, PartialEq, Eq, Structural)]
pub struct CameraConfig {
    pub enabled: bool,
    pub rate_hz: Binary64,
    pub latency_ns: i64,
    pub horizontal_fov_rad: Binary64,
    pub max_range_m: Binary64,
    pub bearing_noise_stddev_rad: Binary64,
    pub detection_probability: Binary64,
}

#[derive(Debug, Clone, Copy, PartialEq, Eq, Structural)]
pub struct LidarConfig {
    pub enabled: bool,
    pub rate_hz: Binary64,
    pub latency_ns: i64,
    pub horizontal_fov_rad: Binary64,
    pub max_range_m: Binary64,
    pub scan_duration_ns: i64,
    pub range_noise_stddev_m: Binary64,
    pub bearing_noise_stddev_rad: Binary64,
    pub detection_probability: Binary64,
}

#[derive(Debug, Clone, Copy, PartialEq, Eq, Structural)]
pub enum EgoEstimatorAlgorithm {
    Basic,
    ImuBias,
    GtsamEkfPlanar,
}

#[derive(Debug, Clone, Copy, PartialEq, Eq, Structural)]
pub struct EgoEstimatorConfig {
    pub algorithm: EgoEstimatorAlgorithm,
    pub timing_compensation: bool,
    pub history_duration_ns: i64,
    pub gps_gate_sigma: Binary64,
    pub initial_position_stddev_m: Binary64,
    pub initial_yaw_stddev_rad: Binary64,
    pub initial_speed_stddev_mps: Binary64,
    pub initial_gyro_bias_stddev_radps: Binary64,
    pub initial_accel_bias_stddev_mps2: Binary64,
}

#[derive(Debug, Clone, Copy, PartialEq, Eq, Structural)]
pub struct ObjectTrackerConfig {
    pub timing_compensation: bool,
    pub history_duration_ns: i64,
    pub acceleration_noise_stddev_mps2: Binary64,
    pub gate_sigma: Binary64,
    pub confirmation_hits: usize,
    pub max_time_without_update_s: Binary64,
}

#[derive(Debug, Clone, Copy, PartialEq, Eq, Structural)]
pub struct MetricsConfig {
    pub max_truth_match_gap_ns: i64,
    pub track_truth_match_max_distance_m: Binary64,
    pub ego_divergence_position_error_m: Binary64,
    pub track_divergence_position_error_m: Binary64,
}

impl EgoEstimatorAlgorithm {
    /// Whether the filter carries the biases of the IMU in its state.
    pub open spec fn spec_estimates_imu_bias(self) -> bool {
        self != EgoEstimatorAlgorithm::Basic
    }

    /// Position, heading and speed, and two biases where the filter estimates them.
    pub open spec fn spec_state_dimension(self) -> usize {
        if self.spec_estimates_imu_bias() {
            6
        } else {
            4
        }
    }

    pub open spec fn spec_name(self) -> Seq<char> {
        match self {
            EgoEstimatorAlgorithm::Basic => "basic"@,
            EgoEstimatorAlgorithm::ImuBias => "imu_bias"@,
            EgoEstimatorAlgorithm::GtsamEkfPlanar => "gtsam_ekf_planar"@,
        }
    }

    #[verifier::when_used_as_spec(spec_estimates_imu_bias)]
    pub fn estimates_imu_bias(self) -> (answer: bool)
        ensures
            answer == self.spec_estimates_imu_bias(),
    {
        matches!(self, EgoEstimatorAlgorithm::ImuBias | EgoEstimatorAlgorithm::GtsamEkfPlanar)
    }

    #[verifier::when_used_as_spec(spec_state_dimension)]
    pub fn state_dimension(self) -> (dimension: usize)
        ensures
            dimension == self.spec_state_dimension(),
    {
        match self {
            EgoEstimatorAlgorithm::Basic => 4,
            EgoEstimatorAlgorithm::ImuBias | EgoEstimatorAlgorithm::GtsamEkfPlanar => 6,
        }
    }

    pub fn name(self) -> (name: &'static str)
        ensures
            name@ == self.spec_name(),
    {
        match self {
            EgoEstimatorAlgorithm::Basic => "basic",
            EgoEstimatorAlgorithm::ImuBias => "imu_bias",
            EgoEstimatorAlgorithm::GtsamEkfPlanar => "gtsam_ekf_planar",
        }
    }
}

} // verus!
