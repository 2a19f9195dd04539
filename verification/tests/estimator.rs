use fusion::binary64::Binary64;
use fusion::estimator::{
    estimator_error, require_backend, run, schedule, timing, validate_delivery_order,
    validate_estimate, ActiveEstimator, DeliveryError, EgoMeasurement, EgoSensor, EstimateError,
    EstimatorError, EstimatorRun, EstimatorSettings, FilterAction, FilterReply, GpsDiagnostics,
    ImuProcessNoise, InitialVariances, UpdateResult,
};
use fusion::messages::{EgoStateEstimate, GpsFix, ImuSample, MeasurementTime, Pose2, Vec2};
use fusion::scenario::{EgoEstimatorAlgorithm, EgoEstimatorConfig, ImuConfig};

fn number(value: f64) -> Binary64 {
    Binary64 {
        bits: value.to_bits(),
    }
}

fn timed_measurement(gps: bool, stamp: i64, arrival: i64) -> EgoMeasurement {
    let time = Some(MeasurementTime {
        measurement_time_ns: stamp,
        arrival_time_ns: arrival,
    });
    if gps {
        EgoMeasurement::Gps(GpsFix {
            time,
            position_world_m: None,
            horizontal_position_variance_m2: number(0.0),
        })
    } else {
        EgoMeasurement::Imu(ImuSample {
            time,
            yaw_rate_radps: number(0.0),
            forward_acceleration_mps2: number(0.0),
        })
    }
}

fn estimate(algorithm: EgoEstimatorAlgorithm) -> EgoStateEstimate {
    let state_dimension = algorithm.state_dimension();
    EgoStateEstimate {
        estimate_time_ns: 0,
        available_time_ns: 0,
        pose_world: Some(Pose2 {
            position: Some(Vec2 {
                x: number(0.0),
                y: number(0.0),
            }),
            yaw_rad: number(0.0),
        }),
        forward_speed_mps: number(0.0),
        state_covariance: vec![number(0.0); state_dimension * state_dimension],
        gyro_bias_z_radps: algorithm.estimates_imu_bias().then_some(number(0.0)),
        accel_bias_x_mps2: algorithm.estimates_imu_bias().then_some(number(0.0)),
    }
}

fn variances() -> InitialVariances {
    InitialVariances {
        position_m2: number(1.0),
        yaw_rad2: number(2.0),
        speed_m2ps2: number(3.0),
        gyro_bias_rad2ps2: number(4.0),
        accel_bias_m2ps4: number(5.0),
    }
}

fn filter(algorithm: EgoEstimatorAlgorithm) -> ActiveEstimator {
    let names = |names: &[&str]| names.iter().map(|name| name.to_string()).collect();
    match algorithm {
        EgoEstimatorAlgorithm::Basic => ActiveEstimator::Basic {
            state_names: names(&["x", "y", "yaw", "speed"]),
            covariance_diagonal: vec![number(9.0); 4],
        },
        EgoEstimatorAlgorithm::ImuBias => ActiveEstimator::ImuBias {
            state_names: names(&["x", "y", "yaw", "speed", "gyro", "accel"]),
            covariance_diagonal: vec![number(9.0); 6],
        },
        EgoEstimatorAlgorithm::GtsamEkfPlanar => ActiveEstimator::GtsamEkfPlanar {
            state_names: names(&["x", "y", "yaw", "speed", "gyro", "accel"]),
            version: "4.2".to_owned(),
        },
    }
}

/// Replies of a filter that does everything, and rejects or accepts every fix.
fn replies(
    config: &EgoEstimatorConfig,
    measurements: &[EgoMeasurement],
    fix: UpdateResult,
) -> Vec<FilterReply> {
    schedule(config, measurements)
        .actions
        .iter()
        .map(|action| match action {
            FilterAction::Propagate { .. } => FilterReply::Propagated,
            FilterAction::UpdateGps { .. } => FilterReply::Updated(fix),
            FilterAction::Estimate {
                estimate_time_ns,
                available_time_ns,
                ..
            } => FilterReply::Estimated(EgoStateEstimate {
                estimate_time_ns: *estimate_time_ns,
                available_time_ns: *available_time_ns,
                ..estimate(config.algorithm)
            }),
        })
        .collect()
}

fn run_with(
    config: &EgoEstimatorConfig,
    measurements: &[EgoMeasurement],
    fix: UpdateResult,
) -> Result<EstimatorRun, EstimatorError> {
    run(
        config,
        &ImuConfig::default(),
        &variances(),
        measurements,
        Some(filter(config.algorithm)),
        replies(config, measurements, fix),
    )
}

#[test]
fn freshness_preserves_newest_stamp_and_counts_trailing_silence() {
    let measurements = [
        timed_measurement(true, 0, 0),
        timed_measurement(true, 8, 10),
        timed_measurement(true, 4, 11), // late old packet must not replace stamp 8
        timed_measurement(false, 25, 25),
    ];
    let diagnostic = timing(&EgoEstimatorConfig::default(), &measurements, 0, 0, 0, 0);
    assert_eq!(diagnostic.freshness_observed_at_ns, Some(25));
    assert_eq!(diagnostic.gps_freshness.final_receipt_age_ns, Some(14));
    assert_eq!(diagnostic.gps_freshness.final_measurement_age_ns, Some(17));
    assert_eq!(diagnostic.gps_freshness.maximum_receipt_gap_ns, Some(14));
    assert_eq!(diagnostic.imu_freshness.final_measurement_age_ns, Some(0));
}

#[test]
fn freshness_distinguishes_recovery_from_never_received() {
    let measurements = [
        timed_measurement(true, 4_500_000_000, 4_500_000_000),
        timed_measurement(true, 10_000_000_000, 10_250_000_000),
    ];
    let diagnostic = timing(&EgoEstimatorConfig::default(), &measurements, 0, 0, 0, 0);
    assert_eq!(diagnostic.gps_freshness.final_receipt_age_ns, Some(0));
    assert_eq!(
        diagnostic.gps_freshness.final_measurement_age_ns,
        Some(250_000_000)
    );
    assert_eq!(
        diagnostic.gps_freshness.maximum_receipt_gap_ns,
        Some(5_750_000_000)
    );
    assert_eq!(diagnostic.imu_freshness.final_receipt_age_ns, None);
    assert_eq!(diagnostic.imu_freshness.final_measurement_age_ns, None);
    assert_eq!(diagnostic.imu_freshness.maximum_receipt_gap_ns, None);
    let empty = timing(&EgoEstimatorConfig::default(), &[], 0, 0, 0, 0);
    assert_eq!(empty.freshness_observed_at_ns, None);
    assert_eq!(empty.gps_freshness.final_receipt_age_ns, None);
}

#[test]
fn measurement_cannot_arrive_before_it_was_taken() {
    assert!(validate_delivery_order(&[timed_measurement(true, 2, 1)]).is_err());
}

#[test]
fn rejected_and_history_discarded_gps_still_count_as_received() {
    let mut gps = timed_measurement(true, 4, 11);
    if let EgoMeasurement::Gps(fix) = &mut gps {
        fix.position_world_m = Some(Vec2 {
            x: number(1e6),
            y: number(1e6),
        });
        fix.horizontal_position_variance_m2 = number(1.0);
    }
    let measurements = [
        timed_measurement(false, 1, 1),
        timed_measurement(false, 10, 10),
        gps,
    ];
    for algorithm in [EgoEstimatorAlgorithm::Basic, EgoEstimatorAlgorithm::ImuBias] {
        for timing_compensation in [false, true] {
            let config = EgoEstimatorConfig {
                algorithm,
                timing_compensation,
                history_duration_ns: 1,
                gps_gate_sigma: number(3.0),
                ..Default::default()
            };
            let rejected = UpdateResult::Rejected {
                normalized_residual: number(4.0),
            };
            let result = run_with(&config, &measurements, rejected).unwrap();
            assert_eq!(result.timing.gps_freshness.final_receipt_age_ns, Some(0));
            assert_eq!(
                result.timing.gps_freshness.final_measurement_age_ns,
                Some(7)
            );
            assert_eq!(result.timing.imu_freshness.final_receipt_age_ns, Some(1));
            if timing_compensation {
                assert_eq!(result.timing.discarded_measurements, 1);
                assert_eq!(result.gps_diagnostics.attempted_fixes, 0);
            } else {
                assert_eq!(result.gps_diagnostics.rejected_fixes, 1);
            }
        }
    }
}

#[test]
fn estimator_output_must_match_its_declared_state() {
    let basic = estimate(EgoEstimatorAlgorithm::Basic);
    assert!(validate_estimate(EgoEstimatorAlgorithm::Basic, &basic).is_ok());

    let mut non_finite_state = basic.clone();
    non_finite_state.forward_speed_mps = number(f64::NAN);
    assert!(validate_estimate(EgoEstimatorAlgorithm::Basic, &non_finite_state).is_err());

    let mut wrong_covariance_size = basic.clone();
    wrong_covariance_size.state_covariance.pop();
    assert!(validate_estimate(EgoEstimatorAlgorithm::Basic, &wrong_covariance_size).is_err());

    let mut negative_variance = basic;
    negative_variance.state_covariance[0] = number(-1.0);
    assert!(validate_estimate(EgoEstimatorAlgorithm::Basic, &negative_variance).is_err());

    let mut missing_bias = estimate(EgoEstimatorAlgorithm::ImuBias);
    missing_bias.gyro_bias_z_radps = None;
    assert!(validate_estimate(EgoEstimatorAlgorithm::ImuBias, &missing_bias).is_err());
}

#[test]
fn every_fault_of_an_estimate_has_its_error() {
    let algorithm = EgoEstimatorAlgorithm::ImuBias;
    let good = estimate(algorithm);
    assert_eq!(validate_estimate(algorithm, &good), Ok(()));

    let mut faulty = good.clone();
    faulty.pose_world = None;
    let error = validate_estimate(algorithm, &faulty).unwrap_err();
    assert_eq!(error, EstimateError::NoPose);
    assert_eq!(error.message(), "estimate has no pose");

    let mut faulty = good.clone();
    faulty.pose_world = Some(Pose2 {
        position: None,
        yaw_rad: number(0.0),
    });
    let error = validate_estimate(algorithm, &faulty).unwrap_err();
    assert_eq!(error, EstimateError::NoPosition);
    assert_eq!(error.message(), "estimate pose has no position");

    let mut faulty = good.clone();
    faulty.forward_speed_mps = number(f64::INFINITY);
    let error = validate_estimate(algorithm, &faulty).unwrap_err();
    assert_eq!(error, EstimateError::NonFiniteState);
    assert_eq!(error.message(), "estimate state contains a non-finite value");

    let mut faulty = good.clone();
    faulty.state_covariance.pop();
    let error = validate_estimate(algorithm, &faulty).unwrap_err();
    assert_eq!(
        error,
        EstimateError::CovarianceSize {
            found: 35,
            expected: 36
        }
    );
    assert_eq!(
        error.message(),
        "estimate covariance has 35 values; expected 36"
    );

    let mut faulty = good.clone();
    faulty.state_covariance[1] = number(f64::NAN);
    let error = validate_estimate(algorithm, &faulty).unwrap_err();
    assert_eq!(error, EstimateError::NonFiniteCovariance);
    assert_eq!(
        error.message(),
        "estimate covariance contains a non-finite value"
    );

    let mut faulty = good.clone();
    faulty.state_covariance[14] = number(-1.0);
    let error = validate_estimate(algorithm, &faulty).unwrap_err();
    assert_eq!(error, EstimateError::NegativeVariance { index: 2 });
    assert_eq!(
        error.message(),
        "estimate covariance diagonal 2 is negative"
    );

    let mut faulty = good.clone();
    faulty.gyro_bias_z_radps = Some(number(f64::NAN));
    let error = validate_estimate(algorithm, &faulty).unwrap_err();
    assert_eq!(error, EstimateError::NoGyroBias);
    assert_eq!(error.message(), "estimate has no finite gyroscope bias");

    let mut faulty = good.clone();
    faulty.accel_bias_x_mps2 = None;
    let error = validate_estimate(algorithm, &faulty).unwrap_err();
    assert_eq!(error, EstimateError::NoAccelerometerBias);
    assert_eq!(error.message(), "estimate has no finite accelerometer bias");
}

#[test]
fn off_diagonal_entries_may_be_negative() {
    let mut estimate = estimate(EgoEstimatorAlgorithm::Basic);
    estimate.state_covariance[1] = number(-1.0);
    estimate.state_covariance[0] = number(-0.0);
    assert_eq!(
        validate_estimate(EgoEstimatorAlgorithm::Basic, &estimate),
        Ok(())
    );
}

#[test]
fn deliveries_must_be_in_order() {
    assert_eq!(validate_delivery_order(&[]), Ok(()));
    assert_eq!(
        validate_delivery_order(&[
            timed_measurement(true, 0, 5),
            timed_measurement(false, 5, 5),
        ]),
        Ok(())
    );
    let early = validate_delivery_order(&[timed_measurement(true, 2, 1)]).unwrap_err();
    assert_eq!(early, DeliveryError::ArrivesBeforeMeasured);
    assert_eq!(
        early.message(),
        "ego measurement arrives before its measurement time"
    );
    let disordered = validate_delivery_order(&[
        timed_measurement(true, 0, 5),
        timed_measurement(true, 0, 4),
    ])
    .unwrap_err();
    assert_eq!(disordered, DeliveryError::OutOfOrder);
    assert_eq!(
        disordered.message(),
        "ego measurements are not in arrival order"
    );
    // Wrong both ways: it counts as arriving too early.
    let both = validate_delivery_order(&[
        timed_measurement(true, 0, 5),
        timed_measurement(true, 6, 4),
    ]);
    assert_eq!(both, Err(DeliveryError::ArrivesBeforeMeasured));
}

#[test]
fn arrival_order_takes_deliveries_as_they_come() {
    let measurements = [
        timed_measurement(false, 10, 10),
        timed_measurement(true, 5, 12),
        timed_measurement(false, 8, 13),
        timed_measurement(true, 9, 14),
    ];
    let config = EgoEstimatorConfig {
        timing_compensation: false,
        ..Default::default()
    };
    let plan = schedule(&config, &measurements);
    assert_eq!(
        plan.actions,
        vec![
            FilterAction::Propagate { measurement: 0 },
            FilterAction::Estimate {
                measurement: 0,
                estimate_time_ns: 10,
                available_time_ns: 10,
            },
            FilterAction::UpdateGps { measurement: 1 },
            FilterAction::Propagate { measurement: 2 },
            FilterAction::Estimate {
                measurement: 2,
                estimate_time_ns: 8,
                available_time_ns: 13,
            },
            FilterAction::UpdateGps { measurement: 3 },
        ]
    );
    // The fix at 5 and the sample at 8 are older than the sample at 10; the fix at 9 is compared
    // with the sample at 8, which came last.
    assert_eq!(plan.delayed_measurements, 2);
    assert_eq!(plan.replayed_measurements, 0);
    assert_eq!(plan.discarded_measurements, 0);
    assert_eq!(plan.revised_estimates, 0);
}

#[test]
fn measurement_order_puts_late_deliveries_back() {
    let measurements = [
        timed_measurement(false, 10, 10),
        timed_measurement(false, 20, 20),
        timed_measurement(true, 10, 25),
        timed_measurement(false, 15, 26),
        timed_measurement(true, 1, 27),
        timed_measurement(false, 20, 28),
    ];
    let config = EgoEstimatorConfig {
        timing_compensation: true,
        history_duration_ns: 10,
        ..Default::default()
    };
    let plan = schedule(&config, &measurements);
    assert_eq!(
        plan.actions,
        vec![
            FilterAction::Propagate { measurement: 0 },
            FilterAction::UpdateGps { measurement: 2 },
            FilterAction::Estimate {
                measurement: 0,
                estimate_time_ns: 10,
                available_time_ns: 25,
            },
            FilterAction::Propagate { measurement: 3 },
            FilterAction::Estimate {
                measurement: 3,
                estimate_time_ns: 15,
                available_time_ns: 26,
            },
            FilterAction::Propagate { measurement: 1 },
            FilterAction::Propagate { measurement: 5 },
            FilterAction::Estimate {
                measurement: 5,
                estimate_time_ns: 20,
                available_time_ns: 28,
            },
        ]
    );
    assert_eq!(plan.delayed_measurements, 3);
    assert_eq!(plan.replayed_measurements, 2);
    assert_eq!(plan.discarded_measurements, 1);
    assert_eq!(plan.revised_estimates, 1);
}

#[test]
fn a_fix_without_samples_is_only_used() {
    let measurements = [timed_measurement(true, 3, 3)];
    let config = EgoEstimatorConfig {
        timing_compensation: true,
        ..Default::default()
    };
    let plan = schedule(&config, &measurements);
    assert_eq!(
        plan.actions,
        vec![FilterAction::UpdateGps { measurement: 0 }]
    );
    assert_eq!(plan.delayed_measurements, 0);
}

#[test]
fn deliveries_of_one_moment_keep_their_order() {
    let measurements = [
        timed_measurement(true, 7, 9),
        timed_measurement(true, 7, 9),
        timed_measurement(false, 7, 9),
    ];
    let config = EgoEstimatorConfig {
        timing_compensation: true,
        ..Default::default()
    };
    let plan = schedule(&config, &measurements);
    assert_eq!(
        plan.actions,
        vec![
            FilterAction::Propagate { measurement: 2 },
            FilterAction::UpdateGps { measurement: 0 },
            FilterAction::UpdateGps { measurement: 1 },
            FilterAction::Estimate {
                measurement: 2,
                estimate_time_ns: 7,
                available_time_ns: 9,
            },
        ]
    );
    assert_eq!(plan.revised_estimates, 0);
}

#[test]
fn a_run_collects_estimates_and_fixes() {
    let measurements = [
        timed_measurement(false, 10, 11),
        timed_measurement(true, 12, 13),
        timed_measurement(false, 20, 21),
    ];
    let config = EgoEstimatorConfig {
        timing_compensation: false,
        ..Default::default()
    };
    let applied = UpdateResult::Applied {
        normalized_residual: number(1.5),
    };
    let result = run_with(&config, &measurements, applied).unwrap();
    let times: Vec<(i64, i64)> = result
        .estimates
        .iter()
        .map(|estimate| (estimate.estimate_time_ns, estimate.available_time_ns))
        .collect();
    assert_eq!(times, vec![(10, 11), (20, 21)]);
    assert_eq!(
        result.gps_diagnostics,
        GpsDiagnostics {
            attempted_fixes: 1,
            accepted_fixes: 1,
            rejected_fixes: 0,
            invalid_fixes: 0,
            maximum_normalized_residual: number(1.5),
        }
    );
    assert_eq!(result.timing.received_measurements, 3);
    assert_eq!(result.timing.maximum_delivery_age_ns, 1);
    assert_eq!(result.assumptions.algorithm, config.algorithm);
    assert_eq!(result.assumptions.gps_gate_sigma, config.gps_gate_sigma);
}

#[test]
fn a_run_stops_where_the_filter_fails() {
    let measurements = [
        timed_measurement(false, 10, 11),
        timed_measurement(true, 12, 13),
    ];
    let config = EgoEstimatorConfig {
        algorithm: EgoEstimatorAlgorithm::Basic,
        timing_compensation: false,
        ..Default::default()
    };
    let error = run(
        &config,
        &ImuConfig::default(),
        &variances(),
        &measurements,
        Some(filter(config.algorithm)),
        vec![
            FilterReply::Propagated,
            FilterReply::Estimated(EgoStateEstimate {
                estimate_time_ns: 10,
                available_time_ns: 11,
                ..estimate(config.algorithm)
            }),
            FilterReply::Failed,
        ],
    )
    .unwrap_err();
    assert_eq!(
        error,
        EstimatorError::Filter {
            algorithm: EgoEstimatorAlgorithm::Basic,
            sensor: EgoSensor::Gps,
            time: MeasurementTime {
                measurement_time_ns: 12,
                arrival_time_ns: 13,
            },
        }
    );
    assert_eq!(
        error.message(),
        "basic estimator failed on GPS measured at 12 ns and received at 13 ns"
    );

    let bad = EgoStateEstimate {
        estimate_time_ns: 10,
        available_time_ns: 11,
        pose_world: None,
        ..estimate(config.algorithm)
    };
    let error = run(
        &config,
        &ImuConfig::default(),
        &variances(),
        &measurements,
        Some(filter(config.algorithm)),
        vec![FilterReply::Propagated, FilterReply::Estimated(bad)],
    )
    .unwrap_err();
    assert_eq!(
        error.message(),
        "basic estimator failed on IMU measured at 10 ns and received at 11 ns"
    );
    assert!(matches!(
        error,
        EstimatorError::Estimate {
            error: EstimateError::NoPose,
            ..
        }
    ));
}

#[test]
fn a_run_needs_order_and_a_filter() {
    let config = EgoEstimatorConfig::default();
    let error = run(
        &config,
        &ImuConfig::default(),
        &variances(),
        &[timed_measurement(true, 2, 1)],
        None,
        vec![],
    )
    .unwrap_err();
    assert_eq!(
        error,
        EstimatorError::Delivery(DeliveryError::ArrivesBeforeMeasured)
    );
    let config = EgoEstimatorConfig {
        algorithm: EgoEstimatorAlgorithm::GtsamEkfPlanar,
        ..config
    };
    let error = run(
        &config,
        &ImuConfig::default(),
        &variances(),
        &[],
        None,
        vec![],
    )
    .unwrap_err();
    assert_eq!(
        error.message(),
        "failed to construct gtsam_ekf_planar estimator"
    );
}

#[test]
fn gtsam_has_to_be_built() {
    for algorithm in [EgoEstimatorAlgorithm::Basic, EgoEstimatorAlgorithm::ImuBias] {
        assert_eq!(require_backend(algorithm, false), Ok(()));
    }
    let gtsam = EgoEstimatorAlgorithm::GtsamEkfPlanar;
    assert_eq!(require_backend(gtsam, true), Ok(()));
    assert_eq!(
        require_backend(gtsam, false).unwrap_err().message(),
        "gtsam_ekf_planar requires a build with `--features gtsam`"
    );
}

#[test]
fn assumptions_describe_the_filter() {
    let config = EgoEstimatorConfig::default();
    let settings = EstimatorSettings::resolve(&config, &ImuConfig::default(), &variances());
    let assumptions = filter(EgoEstimatorAlgorithm::GtsamEkfPlanar)
        .assumptions(EgoEstimatorAlgorithm::GtsamEkfPlanar, &settings);
    assert_eq!(assumptions.backend_version.as_deref(), Some("GTSAM 4.2"));
    let diagonal: Vec<f64> = assumptions
        .initial_covariance_diagonal
        .iter()
        .map(|value| f64::from_bits(value.bits))
        .collect();
    assert_eq!(diagonal, vec![1.0, 1.0, 2.0, 3.0, 4.0, 5.0]);
    let assumptions =
        filter(EgoEstimatorAlgorithm::Basic).assumptions(EgoEstimatorAlgorithm::Basic, &settings);
    assert_eq!(assumptions.backend_version, None);
    assert_eq!(assumptions.state_order, vec!["x", "y", "yaw", "speed"]);
    assert_eq!(assumptions.initial_covariance_diagonal, vec![number(9.0); 4]);
}

#[test]
fn biases_walk_only_where_they_are_estimated() {
    let imu = ImuConfig {
        gyro_bias_random_walk_radps_sqrt_s: number(0.5),
        accel_bias_random_walk_mps2_sqrt_s: number(0.25),
        ..Default::default()
    };
    let basic = ImuProcessNoise::for_algorithm(&imu, EgoEstimatorAlgorithm::Basic);
    assert_eq!(basic.gyro_bias_random_walk_radps_sqrt_s, number(0.0));
    assert_eq!(basic.accel_bias_random_walk_mps2_sqrt_s, number(0.0));
    let bias = ImuProcessNoise::for_algorithm(&imu, EgoEstimatorAlgorithm::ImuBias);
    assert_eq!(bias.gyro_bias_random_walk_radps_sqrt_s, number(0.5));
    assert_eq!(bias.accel_bias_random_walk_mps2_sqrt_s, number(0.25));
    assert_eq!(
        bias.gyro_white_noise_density_radps_sqrt_hz,
        imu.gyro_white_noise_density_radps_sqrt_hz
    );
}

#[test]
fn every_fix_is_counted_once() {
    let mut diagnostics = GpsDiagnostics::default();
    diagnostics.record(UpdateResult::Applied {
        normalized_residual: number(1.0),
    });
    diagnostics.record(UpdateResult::Rejected {
        normalized_residual: number(7.0),
    });
    diagnostics.record(UpdateResult::Invalid);
    diagnostics.record(UpdateResult::Applied {
        normalized_residual: number(2.0),
    });
    assert_eq!(
        diagnostics,
        GpsDiagnostics {
            attempted_fixes: 4,
            accepted_fixes: 2,
            rejected_fixes: 1,
            invalid_fixes: 1,
            maximum_normalized_residual: number(7.0),
        }
    );
}

#[test]
fn failures_say_when() {
    assert_eq!(
        estimator_error(
            EgoEstimatorAlgorithm::ImuBias,
            EgoSensor::Imu,
            &MeasurementTime {
                measurement_time_ns: -5,
                arrival_time_ns: 7,
            },
        ),
        "imu_bias estimator failed on IMU measured at -5 ns and received at 7 ns"
    );
}

#[test]
fn ages_stop_at_the_ends_of_the_clock() {
    let measurements = [
        timed_measurement(true, i64::MIN, i64::MIN),
        timed_measurement(false, i64::MAX, i64::MAX),
    ];
    let diagnostic = timing(&EgoEstimatorConfig::default(), &measurements, 0, 0, 0, 0);
    assert_eq!(
        diagnostic.gps_freshness.final_receipt_age_ns,
        Some(i64::MAX)
    );
    assert_eq!(diagnostic.maximum_delivery_age_ns, 0);
}

/// The deliveries that the filter uses, by measurement time and sensor.
fn used(plan: &[FilterAction], measurements: &[EgoMeasurement]) -> Vec<(i64, bool)> {
    plan.iter()
        .filter_map(|action| match action {
            FilterAction::Propagate { measurement } => {
                Some((measurements[*measurement].time().measurement_time_ns, false))
            }
            FilterAction::UpdateGps { measurement } => {
                Some((measurements[*measurement].time().measurement_time_ns, true))
            }
            FilterAction::Estimate { .. } => None,
        })
        .collect()
}

#[test]
fn compensation_undoes_delays() {
    let punctual = [
        timed_measurement(false, 0, 0),
        timed_measurement(true, 5, 5),
        timed_measurement(false, 10, 10),
        timed_measurement(true, 15, 15),
        timed_measurement(false, 20, 20),
    ];
    let delayed = [
        timed_measurement(false, 0, 0),
        timed_measurement(false, 20, 20),
        timed_measurement(true, 15, 21),
        timed_measurement(false, 10, 22),
        timed_measurement(true, 5, 23),
    ];
    let config = EgoEstimatorConfig {
        timing_compensation: true,
        history_duration_ns: 100,
        ..Default::default()
    };
    let first = schedule(&config, &punctual);
    let second = schedule(&config, &delayed);
    assert_eq!(first.discarded_measurements, 0);
    assert_eq!(second.discarded_measurements, 0);
    assert_eq!(
        used(&first.actions, &punctual),
        used(&second.actions, &delayed)
    );
    assert_eq!(
        used(&first.actions, &punctual),
        vec![(0, false), (5, true), (10, false), (15, true), (20, false)]
    );
    // Without compensation the order of arrival shows.
    let config = EgoEstimatorConfig {
        timing_compensation: false,
        ..config
    };
    let third = schedule(&config, &delayed);
    assert_eq!(
        used(&third.actions, &delayed),
        vec![(0, false), (20, false), (15, true), (10, false), (5, true)]
    );
}

#[test]
fn late_samples_are_kept_however_old() {
    let measurements = [
        timed_measurement(false, 1_000, 1_000),
        timed_measurement(false, 0, 1_001),
        timed_measurement(true, 0, 1_002),
    ];
    let config = EgoEstimatorConfig {
        timing_compensation: true,
        history_duration_ns: 0,
        ..Default::default()
    };
    let plan = schedule(&config, &measurements);
    assert_eq!(
        used(&plan.actions, &measurements),
        vec![(0, false), (1_000, false)]
    );
    assert_eq!(plan.delayed_measurements, 2);
    assert_eq!(plan.replayed_measurements, 1);
    assert_eq!(plan.discarded_measurements, 1);
    // Every time of a sample has its estimate, in ascending order.
    let times: Vec<i64> = plan
        .actions
        .iter()
        .filter_map(|action| match action {
            FilterAction::Estimate {
                estimate_time_ns, ..
            } => Some(*estimate_time_ns),
            _ => None,
        })
        .collect();
    assert_eq!(times, vec![0, 1_000]);
}

#[test]
fn a_fix_at_the_edge_of_the_history_is_used() {
    let measurements = [
        timed_measurement(false, 100, 100),
        timed_measurement(true, 90, 101),
        timed_measurement(true, 89, 102),
    ];
    let config = EgoEstimatorConfig {
        timing_compensation: true,
        history_duration_ns: 10,
        ..Default::default()
    };
    let plan = schedule(&config, &measurements);
    assert_eq!(plan.replayed_measurements, 1);
    assert_eq!(plan.discarded_measurements, 1);
    assert_eq!(
        used(&plan.actions, &measurements),
        vec![(90, true), (100, false)]
    );
}

#[test]
fn a_filter_runs_only_its_own_algorithm() {
    let algorithms = [
        EgoEstimatorAlgorithm::Basic,
        EgoEstimatorAlgorithm::ImuBias,
        EgoEstimatorAlgorithm::GtsamEkfPlanar,
    ];
    for algorithm in algorithms {
        for other in algorithms {
            assert_eq!(filter(algorithm).runs(other), algorithm == other);
        }
    }
    let short = ActiveEstimator::Basic {
        state_names: vec!["x".to_owned()],
        covariance_diagonal: vec![number(9.0); 4],
    };
    assert!(!short.runs(EgoEstimatorAlgorithm::Basic));
    let wide = ActiveEstimator::Basic {
        state_names: vec!["x".to_owned(); 4],
        covariance_diagonal: vec![number(9.0); 5],
    };
    assert!(!wide.runs(EgoEstimatorAlgorithm::Basic));
}

#[test]
fn a_run_names_every_state() {
    for algorithm in [
        EgoEstimatorAlgorithm::Basic,
        EgoEstimatorAlgorithm::ImuBias,
        EgoEstimatorAlgorithm::GtsamEkfPlanar,
    ] {
        let config = EgoEstimatorConfig {
            algorithm,
            ..Default::default()
        };
        let result = run_with(
            &config,
            &[timed_measurement(false, 1, 2)],
            UpdateResult::Invalid,
        )
        .unwrap();
        let assumptions = result.assumptions;
        assert_eq!(assumptions.state_order.len(), algorithm.state_dimension());
        assert_eq!(
            assumptions.initial_covariance_diagonal.len(),
            algorithm.state_dimension()
        );
        assert_eq!(
            assumptions.backend_version.is_some(),
            algorithm == EgoEstimatorAlgorithm::GtsamEkfPlanar
        );
    }
}

#[test]
fn estimates_carry_the_times_that_were_asked() {
    let measurements = [
        timed_measurement(false, 10, 10),
        timed_measurement(false, 20, 21),
        timed_measurement(true, 15, 30),
    ];
    for (timing_compensation, expected) in [
        (false, vec![(10, 10), (20, 21)]),
        (true, vec![(10, 10), (20, 30)]),
    ] {
        let config = EgoEstimatorConfig {
            timing_compensation,
            history_duration_ns: 100,
            ..Default::default()
        };
        let result = run_with(&config, &measurements, UpdateResult::Invalid).unwrap();
        let times: Vec<(i64, i64)> = result
            .estimates
            .iter()
            .map(|estimate| (estimate.estimate_time_ns, estimate.available_time_ns))
            .collect();
        assert_eq!(times, expected);
        assert!(times.iter().all(|(about, available)| about <= available));
    }
}

#[test]
fn a_stream_in_order_needs_no_compensation() {
    let measurements = [
        timed_measurement(false, 10, 10),
        timed_measurement(true, 11, 20),
        timed_measurement(false, 12, 20),
        timed_measurement(true, 13, 22),
        timed_measurement(false, 30, 31),
    ];
    let plan = |timing_compensation: bool| {
        let config = EgoEstimatorConfig {
            timing_compensation,
            history_duration_ns: 0,
            ..Default::default()
        };
        schedule(&config, &measurements)
    };
    let (compensated, plain) = (plan(true), plan(false));
    assert_eq!(compensated.actions, plain.actions);
    assert_eq!(compensated.actions.len(), 8);
    for schedule in [compensated, plain] {
        assert_eq!(schedule.delayed_measurements, 0);
        assert_eq!(schedule.replayed_measurements, 0);
        assert_eq!(schedule.discarded_measurements, 0);
        assert_eq!(schedule.revised_estimates, 0);
    }
    // A fix that shares its time with an IMU sample goes before the report.
    let measurements = [timed_measurement(false, 10, 10), timed_measurement(true, 10, 12)];
    let actions = |timing_compensation: bool| {
        let config = EgoEstimatorConfig {
            timing_compensation,
            ..Default::default()
        };
        schedule(&config, &measurements).actions
    };
    assert_ne!(actions(true), actions(false));
}

#[test]
fn every_fix_is_attempted_or_discarded() {
    let measurements = [
        timed_measurement(true, 1, 1),
        timed_measurement(false, 100, 100),
        timed_measurement(true, 95, 110),
        timed_measurement(true, 2, 120),
        timed_measurement(false, 130, 130),
        timed_measurement(true, 3, 140),
    ];
    for (timing_compensation, attempted, discarded) in [(false, 4, 0), (true, 2, 2)] {
        let config = EgoEstimatorConfig {
            timing_compensation,
            history_duration_ns: 10,
            ..Default::default()
        };
        let result = run_with(&config, &measurements, UpdateResult::Invalid).unwrap();
        assert_eq!(result.gps_diagnostics.attempted_fixes, attempted);
        assert_eq!(result.timing.discarded_measurements, discarded);
    }
}
