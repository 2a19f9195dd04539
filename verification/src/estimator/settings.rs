//! What a filter is set up with, and what a run says of it.
use vstd::prelude::*;

use crate::binary64::{Binary64, ZERO};
use crate::scenario::{EgoEstimatorAlgorithm, EgoEstimatorConfig, ImuConfig};

verus! {

#[derive(Debug, Clone, Copy, PartialEq, Eq, Structural)]
pub struct ImuProcessNoise {
    pub gyro_white_noise_density_radps_sqrt_hz: Binary64,
    pub accel_white_noise_density_mps2_sqrt_hz: Binary64,
    pub gyro_bias_random_walk_radps_sqrt_s: Binary64,
    pub accel_bias_random_walk_mps2_sqrt_s: Binary64,
}

impl ImuProcessNoise {
    /// The noise of the sensor; the biases walk only where the filter estimates them.
    pub open spec fn spec_for_algorithm(
        config: ImuConfig,
        algorithm: EgoEstimatorAlgorithm,
    ) -> ImuProcessNoise {
        let zero = Binary64 { bits: ZERO };
        ImuProcessNoise {
            gyro_white_noise_density_radps_sqrt_hz: config.gyro_white_noise_density_radps_sqrt_hz,
            accel_white_noise_density_mps2_sqrt_hz: config.accel_white_noise_density_mps2_sqrt_hz,
            gyro_bias_random_walk_radps_sqrt_s: if algorithm.estimates_imu_bias() {
                config.gyro_bias_random_walk_radps_sqrt_s
            } else {
                zero
            },
            accel_bias_random_walk_mps2_sqrt_s: if algorithm.estimates_imu_bias() {
                config.accel_bias_random_walk_mps2_sqrt_s
            } else {
                zero
            },
        }
    }

    pub fn for_algorithm(config: &ImuConfig, algorithm: EgoEstimatorAlgorithm) -> (noise:
        ImuProcessNoise)
        ensures
            noise == ImuProcessNoise::spec_for_algorithm(*config, algorithm),
    {
        let estimates_bias = algorithm.estimates_imu_bias();
        let zero = Binary64 { bits: ZERO };
        ImuProcessNoise {
            gyro_white_noise_density_radps_sqrt_hz: config.gyro_white_noise_density_radps_sqrt_hz,
            accel_white_noise_density_mps2_sqrt_hz: config.accel_white_noise_density_mps2_sqrt_hz,
            gyro_bias_random_walk_radps_sqrt_s: if estimates_bias {
                config.gyro_bias_random_walk_radps_sqrt_s
            } else {
                zero
            },
            accel_bias_random_walk_mps2_sqrt_s: if estimates_bias {
                config.accel_bias_random_walk_mps2_sqrt_s
            } else {
                zero
            },
        }
    }
}

/// The squares of the initial standard deviations in [`EgoEstimatorConfig`].
#[derive(Debug, Clone, Copy, PartialEq, Eq, Structural)]
pub struct InitialVariances {
    pub position_m2: Binary64,
    pub yaw_rad2: Binary64,
    pub speed_m2ps2: Binary64,
    pub gyro_bias_rad2ps2: Binary64,
    pub accel_bias_m2ps4: Binary64,
}

#[derive(Debug, Clone, Copy, PartialEq, Eq, Structural)]
pub struct EstimatorSettings {
    pub initial_position_variance_m2: Binary64,
    pub initial_yaw_variance_rad2: Binary64,
    pub initial_speed_variance_m2ps2: Binary64,
    pub initial_gyro_bias_variance_rad2ps2: Binary64,
    pub initial_accel_bias_variance_m2ps4: Binary64,
    pub imu_process_noise: ImuProcessNoise,
    pub gps_gate_sigma: Binary64,
}

impl EstimatorSettings {
    pub open spec fn spec_resolve(
        config: EgoEstimatorConfig,
        imu: ImuConfig,
        variances: InitialVariances,
    ) -> EstimatorSettings {
        EstimatorSettings {
            initial_position_variance_m2: variances.position_m2,
            initial_yaw_variance_rad2: variances.yaw_rad2,
            initial_speed_variance_m2ps2: variances.speed_m2ps2,
            initial_gyro_bias_variance_rad2ps2: variances.gyro_bias_rad2ps2,
            initial_accel_bias_variance_m2ps4: variances.accel_bias_m2ps4,
            imu_process_noise: ImuProcessNoise::spec_for_algorithm(imu, config.algorithm),
            gps_gate_sigma: config.gps_gate_sigma,
        }
    }

    pub fn resolve(
        config: &EgoEstimatorConfig,
        imu: &ImuConfig,
        variances: &InitialVariances,
    ) -> (settings: EstimatorSettings)
        ensures
            settings == EstimatorSettings::spec_resolve(*config, *imu, *variances),
    {
        EstimatorSettings {
            initial_position_variance_m2: variances.position_m2,
            initial_yaw_variance_rad2: variances.yaw_rad2,
            initial_speed_variance_m2ps2: variances.speed_m2ps2,
            initial_gyro_bias_variance_rad2ps2: variances.gyro_bias_rad2ps2,
            initial_accel_bias_variance_m2ps4: variances.accel_bias_m2ps4,
            imu_process_noise: ImuProcessNoise::for_algorithm(imu, config.algorithm),
            gps_gate_sigma: config.gps_gate_sigma,
        }
    }
}

/// A filter that a build has to be asked for is not in it.
#[derive(Debug, Clone, Copy, PartialEq, Eq, Structural)]
pub struct MissingBackend;

impl MissingBackend {
    pub fn message(&self) -> (text: String)
        ensures
            text@ == "gtsam_ekf_planar requires a build with `--features gtsam`"@,
    {
        "gtsam_ekf_planar requires a build with `--features gtsam`".to_owned()
    }
}

/// Tests whether a build has the filter that the algorithm names; `gtsam_is_built` says whether
/// it holds GTSAM.
pub fn require_backend(algorithm: EgoEstimatorAlgorithm, gtsam_is_built: bool) -> (verdict: Result<
    (),
    MissingBackend,
>)
    ensures
        verdict is Err <==> algorithm == EgoEstimatorAlgorithm::GtsamEkfPlanar && !gtsam_is_built,
{
    match algorithm {
        EgoEstimatorAlgorithm::Basic | EgoEstimatorAlgorithm::ImuBias => Ok(()),
        EgoEstimatorAlgorithm::GtsamEkfPlanar => {
            if gtsam_is_built {
                Ok(())
            } else {
                Err(MissingBackend)
            }
        },
    }
}

/// The filter that runs, and what it says of itself before it has seen a measurement.
#[derive(Debug)]
pub enum ActiveEstimator {
    Basic { state_names: Vec<String>, covariance_diagonal: Vec<Binary64> },
    ImuBias { state_names: Vec<String>, covariance_diagonal: Vec<Binary64> },
    GtsamEkfPlanar { state_names: Vec<String>, version: String },
}

#[derive(Debug)]
pub struct EstimatorAssumptions {
    pub algorithm: EgoEstimatorAlgorithm,
    pub backend_version: Option<String>,
    pub state_order: Vec<String>,
    pub initial_covariance_diagonal: Vec<Binary64>,
    pub imu_process_noise: ImuProcessNoise,
    pub gps_gate_sigma: Binary64,
}

impl EstimatorAssumptions {
    /// Whether there is a name and a variance for each state of the algorithm, and a version
    /// exactly if the algorithm is GTSAM's.
    pub open spec fn are_complete(self) -> bool {
        &&& self.state_order.len() == self.algorithm.state_dimension()
        &&& self.initial_covariance_diagonal.len() == self.algorithm.state_dimension()
        &&& self.backend_version is Some <==> self.algorithm
            == EgoEstimatorAlgorithm::GtsamEkfPlanar
    }
}

impl ActiveEstimator {
    /// Whether this is the filter that the algorithm names, with as many states as that declares.
    pub open spec fn spec_runs(self, algorithm: EgoEstimatorAlgorithm) -> bool {
        let dimension = algorithm.state_dimension();
        match self {
            ActiveEstimator::Basic { state_names, covariance_diagonal } => algorithm
                == EgoEstimatorAlgorithm::Basic && state_names.len() == dimension
                && covariance_diagonal.len() == dimension,
            ActiveEstimator::ImuBias { state_names, covariance_diagonal } => algorithm
                == EgoEstimatorAlgorithm::ImuBias && state_names.len() == dimension
                && covariance_diagonal.len() == dimension,
            ActiveEstimator::GtsamEkfPlanar { state_names, .. } => algorithm
                == EgoEstimatorAlgorithm::GtsamEkfPlanar && state_names.len() == dimension,
        }
    }

    /// Tests whether this is the filter that the algorithm names, with as many states as that
    /// declares.
    pub fn runs(&self, algorithm: EgoEstimatorAlgorithm) -> (answer: bool)
        ensures
            answer == self.spec_runs(algorithm),
    {
        let dimension = algorithm.state_dimension();
        match self {
            ActiveEstimator::Basic { state_names, covariance_diagonal } => algorithm
                == EgoEstimatorAlgorithm::Basic && state_names.len() == dimension
                && covariance_diagonal.len() == dimension,
            ActiveEstimator::ImuBias { state_names, covariance_diagonal } => algorithm
                == EgoEstimatorAlgorithm::ImuBias && state_names.len() == dimension
                && covariance_diagonal.len() == dimension,
            ActiveEstimator::GtsamEkfPlanar { state_names, .. } => algorithm
                == EgoEstimatorAlgorithm::GtsamEkfPlanar && state_names.len() == dimension,
        }
    }

    pub open spec fn state_names(self) -> Seq<String> {
        match self {
            ActiveEstimator::Basic { state_names, .. } => state_names@,
            ActiveEstimator::ImuBias { state_names, .. } => state_names@,
            ActiveEstimator::GtsamEkfPlanar { state_names, .. } => state_names@,
        }
    }

    /// The variances that the filter starts from. GTSAM starts from the settings: position twice,
    /// heading, speed, and the two biases.
    pub open spec fn initial_diagonal(self, settings: EstimatorSettings) -> Seq<Binary64> {
        match self {
            ActiveEstimator::Basic { covariance_diagonal, .. } => covariance_diagonal@,
            ActiveEstimator::ImuBias { covariance_diagonal, .. } => covariance_diagonal@,
            ActiveEstimator::GtsamEkfPlanar { .. } => seq![
                settings.initial_position_variance_m2,
                settings.initial_position_variance_m2,
                settings.initial_yaw_variance_rad2,
                settings.initial_speed_variance_m2ps2,
                settings.initial_gyro_bias_variance_rad2ps2,
                settings.initial_accel_bias_variance_m2ps4,
            ],
        }
    }

    /// Only GTSAM has a version of its own.
    pub open spec fn backend_version(self) -> Option<Seq<char>> {
        match self {
            ActiveEstimator::GtsamEkfPlanar { version, .. } => Some("GTSAM "@ + version@),
            _ => None,
        }
    }

    /// Whether `assumptions` describes a run of this filter.
    pub open spec fn are_assumptions(
        self,
        algorithm: EgoEstimatorAlgorithm,
        settings: EstimatorSettings,
        assumptions: EstimatorAssumptions,
    ) -> bool {
        &&& assumptions.algorithm == algorithm
        &&& match assumptions.backend_version {
            Some(version) => self.backend_version() == Some(version@),
            None => self.backend_version() is None,
        }
        &&& assumptions.state_order@ == self.state_names()
        &&& assumptions.initial_covariance_diagonal@ == self.initial_diagonal(settings)
        &&& assumptions.imu_process_noise == settings.imu_process_noise
        &&& assumptions.gps_gate_sigma == settings.gps_gate_sigma
    }

    /// Describes a run of this filter.
    pub fn assumptions(
        self,
        algorithm: EgoEstimatorAlgorithm,
        settings: &EstimatorSettings,
    ) -> (assumptions: EstimatorAssumptions)
        ensures
            self.are_assumptions(algorithm, *settings, assumptions),
            self.spec_runs(algorithm) ==> assumptions.are_complete(),
    {
        let (backend_version, state_order, initial_covariance_diagonal) = match self {
            ActiveEstimator::Basic { state_names, covariance_diagonal } => (
                None,
                state_names,
                covariance_diagonal,
            ),
            ActiveEstimator::ImuBias { state_names, covariance_diagonal } => (
                None,
                state_names,
                covariance_diagonal,
            ),
            ActiveEstimator::GtsamEkfPlanar { state_names, version } => {
                let mut text = "GTSAM ".to_owned();
                text.append(version.as_str());
                (
                    Some(text),
                    state_names,
                    vec![
                        settings.initial_position_variance_m2,
                        settings.initial_position_variance_m2,
                        settings.initial_yaw_variance_rad2,
                        settings.initial_speed_variance_m2ps2,
                        settings.initial_gyro_bias_variance_rad2ps2,
                        settings.initial_accel_bias_variance_m2ps4,
                    ],
                )
            },
        };
        proof {
            assert(initial_covariance_diagonal@ =~= self.initial_diagonal(*settings));
        }
        EstimatorAssumptions {
            algorithm,
            backend_version,
            state_order,
            initial_covariance_diagonal,
            imu_process_noise: settings.imu_process_noise,
            gps_gate_sigma: settings.gps_gate_sigma,
        }
    }
}

} // verus!
