use fusion::binary64::Binary64;
use fusion::pipeline::SensorKind;
use fusion::scenario::rules::{LOWEST_SPEED_MPS, PERIOD_TOLERANCE_NS};
use fusion::scenario::{
    validate, CameraConfig, EgoEstimatorAlgorithm, EgoEstimatorConfig, EstimatorParameter,
    GpsConfig, ImuConfig, LidarConfig, MetricsConfig, MotionSegment, NoiseParameter, ObjectConfig,
    ObjectTrackerConfig, ResolvedScenario, ScenarioArithmetic, ScenarioError, Vec2Config,
    WorldConfig,
};

fn number(value: f64) -> Binary64 {
    Binary64 {
        bits: value.to_bits(),
    }
}

fn value(number: Binary64) -> f64 {
    f64::from_bits(number.bits)
}

fn segment(id: &str) -> MotionSegment {
    MotionSegment {
        id: id.to_string(),
        duration_s: number(2.0),
        longitudinal_acceleration_mps2: number(1.0),
        yaw_rate_radps: number(0.0),
    }
}

fn object(id: &str) -> ObjectConfig {
    ObjectConfig {
        id: id.to_string(),
        initial_position_m: Vec2Config::default(),
        velocity_world_mps: Vec2Config::default(),
    }
}

fn scenario() -> ResolvedScenario {
    ResolvedScenario {
        root_seed: 1,
        motion_speed_factor: number(1.0),
        world: WorldConfig {
            objects: vec![object("a"), object("b")],
        },
        trajectory: vec![segment("start"), segment("go")],
        imu: ImuConfig::default(),
        gps: GpsConfig::default(),
        camera: CameraConfig::default(),
        lidar: LidarConfig::default(),
        ego_estimator: EgoEstimatorConfig::default(),
        object_tracker: ObjectTrackerConfig::default(),
        metrics: MetricsConfig::default(),
    }
}

fn period_error(rate: Binary64) -> Binary64 {
    let period_ns = 1.0e9 / value(rate);
    number((period_ns - period_ns.round()).abs())
}

fn arithmetic(scenario: &ResolvedScenario) -> ScenarioArithmetic {
    let mut speed = 0.0;
    ScenarioArithmetic {
        imu_period_error_ns: period_error(scenario.imu.rate_hz),
        gps_period_error_ns: period_error(scenario.gps.rate_hz),
        camera_period_error_ns: period_error(scenario.camera.rate_hz),
        lidar_period_error_ns: period_error(scenario.lidar.rate_hz),
        forward_speed_mps: scenario
            .trajectory
            .iter()
            .map(|segment| {
                speed +=
                    value(segment.longitudinal_acceleration_mps2) * value(segment.duration_s);
                number(speed)
            })
            .collect(),
    }
}

fn refused(change: impl Fn(&mut ResolvedScenario)) -> (ScenarioError, String) {
    let mut scenario = scenario();
    change(&mut scenario);
    let error = validate(&scenario, &arithmetic(&scenario)).unwrap_err();
    let message = error.message(&scenario);
    (error, message)
}

#[test]
fn a_plain_scenario_is_valid() {
    let scenario = scenario();
    assert_eq!(validate(&scenario, &arithmetic(&scenario)), Ok(()));
}

#[test]
fn defaults_are_what_they_say() {
    let vector = Vec2Config::default();
    assert_eq!((value(vector.x), value(vector.y)), (0.0, 0.0));
    let imu = ImuConfig::default();
    assert!(imu.enabled);
    assert_eq!(value(imu.rate_hz), 100.0);
    assert_eq!(imu.latency_ns, 0);
    assert_eq!(imu.clock_offset_ns, 0);
    assert_eq!(value(imu.gyro_white_noise_density_radps_sqrt_hz), 0.0008);
    assert_eq!(value(imu.accel_white_noise_density_mps2_sqrt_hz), 0.012);
    assert_eq!(value(imu.gyro_bias_radps), 0.0);
    assert_eq!(value(imu.accel_bias_mps2), 0.0);
    assert_eq!(value(imu.gyro_bias_random_walk_radps_sqrt_s), 0.0);
    assert_eq!(value(imu.accel_bias_random_walk_mps2_sqrt_s), 0.0);
    let gps = GpsConfig::default();
    assert!(gps.enabled);
    assert_eq!(value(gps.rate_hz), 2.0);
    assert_eq!(gps.latency_ns, 0);
    assert_eq!(value(gps.horizontal_position_stddev_m), 0.25);
    assert_eq!(value(gps.outlier_probability), 0.0);
    assert_eq!(value(gps.outlier_stddev_m), 10.0);
    assert_eq!(gps.dropout_start_s, None);
    assert_eq!(gps.dropout_end_s, None);
    let camera = CameraConfig::default();
    assert!(camera.enabled);
    assert_eq!(value(camera.rate_hz), 10.0);
    assert_eq!(camera.latency_ns, 0);
    assert_eq!(value(camera.horizontal_fov_rad), 2.8);
    assert_eq!(value(camera.max_range_m), 25.0);
    assert_eq!(value(camera.bearing_noise_stddev_rad), 0.006);
    assert_eq!(value(camera.detection_probability), 1.0);
    let lidar = LidarConfig::default();
    assert!(lidar.enabled);
    assert_eq!(value(lidar.rate_hz), 5.0);
    assert_eq!(lidar.latency_ns, 0);
    assert_eq!(value(lidar.horizontal_fov_rad), std::f64::consts::TAU);
    assert_eq!(value(lidar.max_range_m), 25.0);
    assert_eq!(lidar.scan_duration_ns, 0);
    assert_eq!(value(lidar.range_noise_stddev_m), 0.025);
    assert_eq!(value(lidar.bearing_noise_stddev_rad), 0.002);
    assert_eq!(value(lidar.detection_probability), 1.0);
    assert_eq!(
        EgoEstimatorAlgorithm::default(),
        EgoEstimatorAlgorithm::Basic
    );
    let estimator = EgoEstimatorConfig::default();
    assert_eq!(estimator.algorithm, EgoEstimatorAlgorithm::Basic);
    assert!(!estimator.timing_compensation);
    assert_eq!(estimator.history_duration_ns, 1_000_000_000);
    assert_eq!(value(estimator.gps_gate_sigma), 1.0e9);
    assert_eq!(value(estimator.initial_position_stddev_m), 0.5);
    assert_eq!(value(estimator.initial_yaw_stddev_rad), 0.1);
    assert_eq!(value(estimator.initial_speed_stddev_mps), 0.5);
    assert_eq!(value(estimator.initial_gyro_bias_stddev_radps), 0.1);
    assert_eq!(value(estimator.initial_accel_bias_stddev_mps2), 0.5);
    let tracker = ObjectTrackerConfig::default();
    assert!(!tracker.timing_compensation);
    assert_eq!(tracker.history_duration_ns, 1_000_000_000);
    assert_eq!(value(tracker.acceleration_noise_stddev_mps2), 0.5);
    assert_eq!(value(tracker.gate_sigma), 4.0);
    assert_eq!(tracker.confirmation_hits, 2);
    assert_eq!(value(tracker.max_time_without_update_s), 1.0);
    let metrics = MetricsConfig::default();
    assert_eq!(metrics.max_truth_match_gap_ns, 10_000_000);
    assert_eq!(value(metrics.track_truth_match_max_distance_m), 5.0);
    assert_eq!(value(metrics.ego_divergence_position_error_m), 5.0);
    assert_eq!(value(metrics.track_divergence_position_error_m), 5.0);
}

#[test]
fn algorithms_have_names_and_dimensions() {
    for (algorithm, name, dimension, bias) in [
        (EgoEstimatorAlgorithm::Basic, "basic", 4, false),
        (EgoEstimatorAlgorithm::ImuBias, "imu_bias", 6, true),
        (
            EgoEstimatorAlgorithm::GtsamEkfPlanar,
            "gtsam_ekf_planar",
            6,
            true,
        ),
    ] {
        assert_eq!(algorithm.name(), name);
        assert_eq!(algorithm.state_dimension(), dimension);
        assert_eq!(algorithm.estimates_imu_bias(), bias);
    }
}

#[test]
fn motion_and_sensors_are_tested() {
    for factor in [0.0, -1.0, f64::NAN, f64::INFINITY] {
        assert_eq!(
            refused(|s| s.motion_speed_factor = number(factor)),
            (
                ScenarioError::MotionSpeedFactor,
                "motion_speed_factor must be positive".to_string()
            )
        );
    }
    assert_eq!(
        refused(|s| s.imu.enabled = false).1,
        "the vehicle estimator requires the IMU"
    );
    assert_eq!(
        refused(|s| s.imu.rate_hz = number(0.0)).1,
        "imu rate must be positive"
    );
    assert_eq!(
        refused(|s| s.gps.rate_hz = number(3.0)),
        (
            ScenarioError::RateNotWholeNanoseconds {
                sensor: SensorKind::Gps
            },
            "gps rate must map to an integer nanosecond period".to_string()
        )
    );
    assert_eq!(
        refused(|s| s.camera.latency_ns = -1).1,
        "camera latency must be nonnegative"
    );
    assert_eq!(
        refused(|s| s.lidar.latency_ns = i64::MIN).1,
        "lidar latency must be nonnegative"
    );
    assert_eq!(
        refused(|s| s.imu.clock_offset_ns = -1).1,
        "IMU clock offset must be nonnegative"
    );
}

#[test]
fn a_disabled_sensor_may_have_any_rate() {
    let mut scenario = scenario();
    scenario.gps.enabled = false;
    scenario.gps.rate_hz = number(-3.0);
    assert_eq!(validate(&scenario, &arithmetic(&scenario)), Ok(()));
    scenario.gps.latency_ns = -1;
    assert_eq!(
        validate(&scenario, &arithmetic(&scenario)),
        Err(ScenarioError::NegativeLatency {
            sensor: SensorKind::Gps
        })
    );
}

#[test]
fn noise_is_finite_and_not_negative() {
    let changes: [(fn(&mut ResolvedScenario, Binary64), NoiseParameter, &str); 9] = [
        (
            |s, v| s.imu.gyro_white_noise_density_radps_sqrt_hz = v,
            NoiseParameter::Gyro,
            "gyro noise",
        ),
        (
            |s, v| s.imu.accel_white_noise_density_mps2_sqrt_hz = v,
            NoiseParameter::Accelerometer,
            "accelerometer noise",
        ),
        (
            |s, v| s.imu.gyro_bias_random_walk_radps_sqrt_s = v,
            NoiseParameter::GyroBiasWalk,
            "gyro bias walk",
        ),
        (
            |s, v| s.imu.accel_bias_random_walk_mps2_sqrt_s = v,
            NoiseParameter::AccelerometerBiasWalk,
            "accelerometer bias walk",
        ),
        (
            |s, v| s.gps.horizontal_position_stddev_m = v,
            NoiseParameter::Gps,
            "GPS noise",
        ),
        (
            |s, v| s.gps.outlier_stddev_m = v,
            NoiseParameter::GpsOutlier,
            "GPS outlier size",
        ),
        (
            |s, v| s.camera.bearing_noise_stddev_rad = v,
            NoiseParameter::CameraBearing,
            "camera bearing noise",
        ),
        (
            |s, v| s.lidar.range_noise_stddev_m = v,
            NoiseParameter::LidarRange,
            "lidar range noise",
        ),
        (
            |s, v| s.lidar.bearing_noise_stddev_rad = v,
            NoiseParameter::LidarBearing,
            "lidar bearing noise",
        ),
    ];
    for (change, parameter, name) in changes {
        for bad in [-1.0, f64::NAN, f64::INFINITY] {
            let (error, message) = refused(|s| change(s, number(bad)));
            assert_eq!(error, ScenarioError::Noise(parameter));
            assert_eq!(message, format!("{name} must be finite and nonnegative"));
        }
        let mut good = scenario();
        change(&mut good, number(0.0));
        assert_eq!(validate(&good, &arithmetic(&good)), Ok(()));
    }
}

#[test]
fn detection_sensors_are_tested() {
    for fov in [0.0, 7.0, f64::NAN] {
        assert_eq!(
            refused(|s| s.camera.horizontal_fov_rad = number(fov)).1,
            "camera field of view must be in (0, 2pi]"
        );
        assert_eq!(
            refused(|s| s.lidar.horizontal_fov_rad = number(fov)).1,
            "lidar field of view must be in (0, 2pi]"
        );
    }
    assert_eq!(
        refused(|s| s.camera.max_range_m = number(0.0)).1,
        "camera range must be positive"
    );
    assert_eq!(
        refused(|s| s.camera.detection_probability = number(1.5)).1,
        "camera detection probability must be in [0, 1]"
    );
    assert_eq!(
        refused(|s| s.gps.outlier_probability = number(-0.5)).1,
        "GPS outlier probability must be in [0, 1]"
    );
    assert_eq!(
        refused(|s| s.lidar.max_range_m = number(f64::INFINITY)).1,
        "lidar range must be positive"
    );
    assert_eq!(
        refused(|s| s.lidar.scan_duration_ns = -1).1,
        "lidar scan duration must be nonnegative"
    );
    assert_eq!(
        refused(|s| s.lidar.detection_probability = number(f64::NAN)).1,
        "lidar detection probability must be in [0, 1]"
    );
    let mut full_turn = scenario();
    full_turn.camera.horizontal_fov_rad = number(std::f64::consts::TAU);
    assert_eq!(validate(&full_turn, &arithmetic(&full_turn)), Ok(()));
}

#[test]
fn the_world_is_tested() {
    assert_eq!(
        refused(|s| s.world.objects.clear()).1,
        "world must contain at least one object"
    );
    assert_eq!(
        refused(|s| s.world.objects[1].id = "a".to_string()).1,
        "object IDs must be nonempty and unique"
    );
    assert_eq!(
        refused(|s| s.world.objects[0].id = String::new()).1,
        "object IDs must be nonempty and unique"
    );
    assert_eq!(
        refused(|s| s.world.objects[1].velocity_world_mps.y = number(f64::NAN)),
        (
            ScenarioError::ObjectState { object: 1 },
            "object b state must be finite".to_string()
        )
    );
}

#[test]
fn the_trajectory_is_tested() {
    assert_eq!(
        refused(|s| s.trajectory.clear()).1,
        "trajectory must contain at least one segment"
    );
    assert_eq!(
        refused(|s| s.trajectory[1].id = "start".to_string()).1,
        "trajectory IDs must be nonempty and unique"
    );
    assert_eq!(
        refused(|s| s.trajectory[0].duration_s = number(0.0)).1,
        "segment start duration must be positive"
    );
    assert_eq!(
        refused(|s| s.trajectory[1].yaw_rate_radps = number(f64::INFINITY)).1,
        "segment go motion must be finite"
    );
    assert_eq!(
        refused(|s| s.trajectory[1].longitudinal_acceleration_mps2 = number(-1.5)),
        (
            ScenarioError::SegmentSpeed { segment: 1 },
            "segment go produces a negative forward speed".to_string()
        )
    );
    // Coming to rest is no negative speed.
    let mut stopping = scenario();
    stopping.trajectory[1].longitudinal_acceleration_mps2 = number(-1.0);
    assert_eq!(validate(&stopping, &arithmetic(&stopping)), Ok(()));
    let mut creeping = scenario();
    creeping.trajectory = vec![segment("only")];
    creeping.trajectory[0].duration_s = number(1.0);
    creeping.trajectory[0].longitudinal_acceleration_mps2 = number(-1.0e-9);
    assert_eq!(validate(&creeping, &arithmetic(&creeping)), Ok(()));
}

#[test]
fn the_estimators_are_tested() {
    assert_eq!(
        refused(|s| s.ego_estimator.history_duration_ns = -1).1,
        "history durations must be nonnegative"
    );
    assert_eq!(
        refused(|s| s.object_tracker.history_duration_ns = -1).1,
        "history durations must be nonnegative"
    );
    let changes: [(fn(&mut ResolvedScenario, Binary64), EstimatorParameter, &str); 10] = [
        (
            |s, v| s.ego_estimator.gps_gate_sigma = v,
            EstimatorParameter::GpsGate,
            "GPS gate",
        ),
        (
            |s, v| s.ego_estimator.initial_position_stddev_m = v,
            EstimatorParameter::InitialPosition,
            "initial position uncertainty",
        ),
        (
            |s, v| s.ego_estimator.initial_yaw_stddev_rad = v,
            EstimatorParameter::InitialYaw,
            "initial yaw uncertainty",
        ),
        (
            |s, v| s.ego_estimator.initial_speed_stddev_mps = v,
            EstimatorParameter::InitialSpeed,
            "initial speed uncertainty",
        ),
        (
            |s, v| s.ego_estimator.initial_gyro_bias_stddev_radps = v,
            EstimatorParameter::InitialGyroBias,
            "initial gyro bias uncertainty",
        ),
        (
            |s, v| s.ego_estimator.initial_accel_bias_stddev_mps2 = v,
            EstimatorParameter::InitialAccelerometerBias,
            "initial accelerometer bias uncertainty",
        ),
        (
            |s, v| s.object_tracker.acceleration_noise_stddev_mps2 = v,
            EstimatorParameter::TrackerAcceleration,
            "tracker acceleration noise",
        ),
        (
            |s, v| s.object_tracker.gate_sigma = v,
            EstimatorParameter::TrackerGate,
            "tracker gate",
        ),
        (
            |s, v| s.object_tracker.max_time_without_update_s = v,
            EstimatorParameter::TrackerMaximumSilence,
            "tracker maximum time without an update",
        ),
        (
            |s, v| s.metrics.track_truth_match_max_distance_m = v,
            EstimatorParameter::TrackTruthDistance,
            "track truth match distance",
        ),
    ];
    for (change, parameter, name) in changes {
        for bad in [0.0, -1.0, f64::NAN, f64::INFINITY] {
            let (error, message) = refused(|s| change(s, number(bad)));
            assert_eq!(error, ScenarioError::Estimator(parameter));
            assert_eq!(message, format!("{name} must be positive and finite"));
        }
    }
    assert_eq!(
        refused(|s| s.metrics.max_truth_match_gap_ns = -1).1,
        "truth match gap must be nonnegative"
    );
    assert_eq!(
        refused(|s| s.object_tracker.confirmation_hits = 0).1,
        "tracker confirmation hits must be positive"
    );
    assert_eq!(
        refused(|s| s.metrics.ego_divergence_position_error_m = number(0.0)).1,
        "error thresholds must be positive"
    );
    assert_eq!(
        refused(|s| s.metrics.track_divergence_position_error_m = number(f64::NAN)).1,
        "error thresholds must be positive"
    );
}

#[test]
fn an_infinite_error_threshold_is_allowed() {
    let mut scenario = scenario();
    scenario.metrics.ego_divergence_position_error_m = number(f64::INFINITY);
    assert_eq!(validate(&scenario, &arithmetic(&scenario)), Ok(()));
}

#[test]
fn the_first_broken_rule_decides() {
    let (error, _) = refused(|s| {
        s.metrics.max_truth_match_gap_ns = -1;
        s.world.objects.clear();
        s.gps.latency_ns = -1;
    });
    assert_eq!(
        error,
        ScenarioError::NegativeLatency {
            sensor: SensorKind::Gps
        }
    );
}

#[test]
fn tolerances_are_what_they_say() {
    assert_eq!(f64::from_bits(PERIOD_TOLERANCE_NS), 1.0e-6);
    assert_eq!(f64::from_bits(LOWEST_SPEED_MPS), -1.0e-9);
}
