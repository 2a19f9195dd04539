//! The values that a scenario leaves unsaid.
use vstd::prelude::*;

use crate::binary64::{Binary64, ONE, TAU, ZERO};

use super::{
    CameraConfig, EgoEstimatorAlgorithm, EgoEstimatorConfig, GpsConfig, ImuConfig, LidarConfig,
    MetricsConfig, ObjectTrackerConfig, Vec2Config,
};

verus! {

/// The encoding of 0.0008.
pub const EIGHT_TEN_THOUSANDTHS: u64 = 0x3F4A_36E2_EB1C_432D;

/// The encoding of 0.002.
pub const TWO_THOUSANDTHS: u64 = 0x3F60_624D_D2F1_A9FC;

/// The encoding of 0.006.
pub const SIX_THOUSANDTHS: u64 = 0x3F78_9374_BC6A_7EFA;

/// The encoding of 0.012.
pub const TWELVE_THOUSANDTHS: u64 = 0x3F88_9374_BC6A_7EFA;

/// The encoding of 0.025.
pub const ONE_FORTIETH: u64 = 0x3F99_9999_9999_999A;

/// The encoding of 0.1.
pub const ONE_TENTH: u64 = 0x3FB9_9999_9999_999A;

/// The encoding of 0.25.
pub const ONE_QUARTER: u64 = 0x3FD0_0000_0000_0000;

/// The encoding of 0.5.
pub const ONE_HALF: u64 = 0x3FE0_0000_0000_0000;

/// The encoding of 2.
pub const TWO: u64 = 0x4000_0000_0000_0000;

/// The encoding of 2.8.
pub const TWO_POINT_EIGHT: u64 = 0x4006_6666_6666_6666;

/// The encoding of 4.
pub const FOUR: u64 = 0x4010_0000_0000_0000;

/// The encoding of 5.
pub const FIVE: u64 = 0x4014_0000_0000_0000;

/// The encoding of 10.
pub const TEN: u64 = 0x4024_0000_0000_0000;

/// The encoding of 25.
pub const TWENTY_FIVE: u64 = 0x4039_0000_0000_0000;

/// The encoding of 100.
pub const HUNDRED: u64 = 0x4059_0000_0000_0000;

/// The encoding of one billion.
pub const BILLION: u64 = 0x41CD_CD65_0000_0000;

impl Default for Vec2Config {
    fn default() -> (config: Self)
        ensures
            config.x.bits == ZERO,
            config.y.bits == ZERO,
    {
        Vec2Config { x: Binary64 { bits: ZERO }, y: Binary64 { bits: ZERO } }
    }
}

/// 100 Hz, on time, with white noise and without bias.
pub open spec fn default_imu() -> ImuConfig {
    ImuConfig {
        enabled: true,
        rate_hz: Binary64 { bits: HUNDRED },
        latency_ns: 0,
        clock_offset_ns: 0,
        gyro_white_noise_density_radps_sqrt_hz: Binary64 { bits: EIGHT_TEN_THOUSANDTHS },
        accel_white_noise_density_mps2_sqrt_hz: Binary64 { bits: TWELVE_THOUSANDTHS },
        gyro_bias_radps: Binary64 { bits: ZERO },
        accel_bias_mps2: Binary64 { bits: ZERO },
        gyro_bias_random_walk_radps_sqrt_s: Binary64 { bits: ZERO },
        accel_bias_random_walk_mps2_sqrt_s: Binary64 { bits: ZERO },
    }
}

impl Default for ImuConfig {
    fn default() -> (config: Self)
        ensures
            config == default_imu(),
    {
        ImuConfig {
            enabled: true,
            rate_hz: Binary64 { bits: HUNDRED },
            latency_ns: 0,
            clock_offset_ns: 0,
            gyro_white_noise_density_radps_sqrt_hz: Binary64 { bits: EIGHT_TEN_THOUSANDTHS },
            accel_white_noise_density_mps2_sqrt_hz: Binary64 { bits: TWELVE_THOUSANDTHS },
            gyro_bias_radps: Binary64 { bits: ZERO },
            accel_bias_mps2: Binary64 { bits: ZERO },
            gyro_bias_random_walk_radps_sqrt_s: Binary64 { bits: ZERO },
            accel_bias_random_walk_mps2_sqrt_s: Binary64 { bits: ZERO },
        }
    }
}

/// 2 Hz, on time, without outliers and without a dropout.
pub open spec fn default_gps() -> GpsConfig {
    GpsConfig {
        enabled: true,
        rate_hz: Binary64 { bits: TWO },
        latency_ns: 0,
        horizontal_position_stddev_m: Binary64 { bits: ONE_QUARTER },
        outlier_probability: Binary64 { bits: ZERO },
        outlier_stddev_m: Binary64 { bits: TEN },
        dropout_start_s: None,
        dropout_end_s: None,
    }
}

impl Default for GpsConfig {
    fn default() -> (config: Self)
        ensures
            config == default_gps(),
    {
        GpsConfig {
            enabled: true,
            rate_hz: Binary64 { bits: TWO },
            latency_ns: 0,
            horizontal_position_stddev_m: Binary64 { bits: ONE_QUARTER },
            outlier_probability: Binary64 { bits: ZERO },
            outlier_stddev_m: Binary64 { bits: TEN },
            dropout_start_s: None,
            dropout_end_s: None,
        }
    }
}

/// 10 Hz, on time, wide and short-sighted, seeing everything in view.
pub open spec fn default_camera() -> CameraConfig {
    CameraConfig {
        enabled: true,
        rate_hz: Binary64 { bits: TEN },
        latency_ns: 0,
        horizontal_fov_rad: Binary64 { bits: TWO_POINT_EIGHT },
        max_range_m: Binary64 { bits: TWENTY_FIVE },
        bearing_noise_stddev_rad: Binary64 { bits: SIX_THOUSANDTHS },
        detection_probability: Binary64 { bits: ONE },
    }
}

impl Default for CameraConfig {
    fn default() -> (config: Self)
        ensures
            config == default_camera(),
    {
        CameraConfig {
            enabled: true,
            rate_hz: Binary64 { bits: TEN },
            latency_ns: 0,
            horizontal_fov_rad: Binary64 { bits: TWO_POINT_EIGHT },
            max_range_m: Binary64 { bits: TWENTY_FIVE },
            bearing_noise_stddev_rad: Binary64 { bits: SIX_THOUSANDTHS },
            detection_probability: Binary64 { bits: ONE },
        }
    }
}

/// 5 Hz, on time, all around, seeing everything in range at once.
pub open spec fn default_lidar() -> LidarConfig {
    LidarConfig {
        enabled: true,
        rate_hz: Binary64 { bits: FIVE },
        latency_ns: 0,
        horizontal_fov_rad: Binary64 { bits: TAU },
        max_range_m: Binary64 { bits: TWENTY_FIVE },
        scan_duration_ns: 0,
        range_noise_stddev_m: Binary64 { bits: ONE_FORTIETH },
        bearing_noise_stddev_rad: Binary64 { bits: TWO_THOUSANDTHS },
        detection_probability: Binary64 { bits: ONE },
    }
}

impl Default for LidarConfig {
    fn default() -> (config: Self)
        ensures
            config == default_lidar(),
    {
        LidarConfig {
            enabled: true,
            rate_hz: Binary64 { bits: FIVE },
            latency_ns: 0,
            horizontal_fov_rad: Binary64 { bits: TAU },
            max_range_m: Binary64 { bits: TWENTY_FIVE },
            scan_duration_ns: 0,
            range_noise_stddev_m: Binary64 { bits: ONE_FORTIETH },
            bearing_noise_stddev_rad: Binary64 { bits: TWO_THOUSANDTHS },
            detection_probability: Binary64 { bits: ONE },
        }
    }
}

impl Default for EgoEstimatorAlgorithm {
    fn default() -> (algorithm: Self)
        ensures
            algorithm == EgoEstimatorAlgorithm::Basic,
    {
        EgoEstimatorAlgorithm::Basic
    }
}

/// The basic filter in arrival order, with a gate too wide to reject anything.
pub open spec fn default_ego_estimator() -> EgoEstimatorConfig {
    EgoEstimatorConfig {
        algorithm: EgoEstimatorAlgorithm::Basic,
        timing_compensation: false,
        history_duration_ns: 1_000_000_000,
        gps_gate_sigma: Binary64 { bits: BILLION },
        initial_position_stddev_m: Binary64 { bits: ONE_HALF },
        initial_yaw_stddev_rad: Binary64 { bits: ONE_TENTH },
        initial_speed_stddev_mps: Binary64 { bits: ONE_HALF },
        initial_gyro_bias_stddev_radps: Binary64 { bits: ONE_TENTH },
        initial_accel_bias_stddev_mps2: Binary64 { bits: ONE_HALF },
    }
}

impl Default for EgoEstimatorConfig {
    fn default() -> (config: Self)
        ensures
            config == default_ego_estimator(),
    {
        EgoEstimatorConfig {
            algorithm: EgoEstimatorAlgorithm::Basic,
            timing_compensation: false,
            history_duration_ns: 1_000_000_000,
            gps_gate_sigma: Binary64 { bits: BILLION },
            initial_position_stddev_m: Binary64 { bits: ONE_HALF },
            initial_yaw_stddev_rad: Binary64 { bits: ONE_TENTH },
            initial_speed_stddev_mps: Binary64 { bits: ONE_HALF },
            initial_gyro_bias_stddev_radps: Binary64 { bits: ONE_TENTH },
            initial_accel_bias_stddev_mps2: Binary64 { bits: ONE_HALF },
        }
    }
}

/// Arrival order, a gate of four standard deviations, tracks confirmed by two hits.
pub open spec fn default_object_tracker() -> ObjectTrackerConfig {
    ObjectTrackerConfig {
        timing_compensation: false,
        history_duration_ns: 1_000_000_000,
        acceleration_noise_stddev_mps2: Binary64 { bits: ONE_HALF },
        gate_sigma: Binary64 { bits: FOUR },
        confirmation_hits: 2,
        max_time_without_update_s: Binary64 { bits: ONE },
    }
}

impl Default for ObjectTrackerConfig {
    fn default() -> (config: Self)
        ensures
            config == default_object_tracker(),
    {
        ObjectTrackerConfig {
            timing_compensation: false,
            history_duration_ns: 1_000_000_000,
            acceleration_noise_stddev_mps2: Binary64 { bits: ONE_HALF },
            gate_sigma: Binary64 { bits: FOUR },
            confirmation_hits: 2,
            max_time_without_update_s: Binary64 { bits: ONE },
        }
    }
}

/// Truth within ten milliseconds and five metres.
pub open spec fn default_metrics() -> MetricsConfig {
    MetricsConfig {
        max_truth_match_gap_ns: 10_000_000,
        track_truth_match_max_distance_m: Binary64 { bits: FIVE },
        ego_divergence_position_error_m: Binary64 { bits: FIVE },
        track_divergence_position_error_m: Binary64 { bits: FIVE },
    }
}

impl Default for MetricsConfig {
    fn default() -> (config: Self)
        ensures
            config == default_metrics(),
    {
        MetricsConfig {
            max_truth_match_gap_ns: 10_000_000,
            track_truth_match_max_distance_m: Binary64 { bits: FIVE },
            ego_divergence_position_error_m: Binary64 { bits: FIVE },
            track_divergence_position_error_m: Binary64 { bits: FIVE },
        }
    }
}

} // verus!
