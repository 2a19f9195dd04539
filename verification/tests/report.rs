use fusion::binary64::Binary64;
use fusion::estimator::{
    EstimatorAssumptions, GpsDiagnostics, ImuProcessNoise, SensorFreshness, TimingDiagnostics,
};
use fusion::report::{
    display_track_rmse, write_reports, AgeTexts, MetricTexts, TrackMistakes, TrackerDiagnostics,
};
use fusion::scenario::EgoEstimatorAlgorithm;

fn zero() -> Binary64 {
    Binary64 { bits: 0 }
}

fn assumptions(version: Option<&str>) -> EstimatorAssumptions {
    EstimatorAssumptions {
        algorithm: EgoEstimatorAlgorithm::ImuBias,
        backend_version: version.map(|version| version.to_string()),
        state_order: vec![],
        initial_covariance_diagonal: vec![],
        imu_process_noise: ImuProcessNoise {
            gyro_white_noise_density_radps_sqrt_hz: zero(),
            accel_white_noise_density_mps2_sqrt_hz: zero(),
            gyro_bias_random_walk_radps_sqrt_s: zero(),
            accel_bias_random_walk_mps2_sqrt_s: zero(),
        },
        gps_gate_sigma: zero(),
    }
}

fn fixes() -> GpsDiagnostics {
    GpsDiagnostics {
        attempted_fixes: 6,
        accepted_fixes: 3,
        rejected_fixes: 2,
        invalid_fixes: 1,
        maximum_normalized_residual: zero(),
    }
}

fn tracker() -> TrackerDiagnostics {
    TrackerDiagnostics {
        associated_camera_detections: 11,
        associated_lidar_detections: 12,
        unmatched_camera_detections: 13,
        unmatched_lidar_detections: 14,
        created_tracks: 15,
        confirmed_tracks: 16,
        deleted_tracks: 17,
        candidate_pairs: 18,
        gated_out_pairs: 19,
        selected_associations: 20,
        missed_updates: 21,
        coasted_updates: 22,
    }
}

fn ages(receipt: &str, measurement: &str, gap: &str) -> AgeTexts {
    AgeTexts {
        final_receipt_age_s: receipt.to_string(),
        final_measurement_age_s: measurement.to_string(),
        maximum_receipt_gap_s: gap.to_string(),
    }
}

fn text(text: &str) -> Option<String> {
    Some(text.to_string())
}

fn metrics() -> MetricTexts {
    MetricTexts {
        position_rmse_m: "0.123".to_string(),
        yaw_rmse_rad: "0.045".to_string(),
        truth_ego_track_rmse_m: text("0.200"),
        estimated_ego_track_rmse_m: text("0.300"),
        ego_cost_m: text("+0.100"),
        gyro_bias_rmse_radps: None,
        accel_bias_rmse_mps2: None,
        gyro_bias_coverage: None,
        accel_bias_coverage: None,
        maximum_delivery_age_ms: "250.0".to_string(),
        gps_ages: ages("0.100", "0.200", "0.300"),
        imu_ages: ages("", "", ""),
        tracks_with_estimated_ego: TrackMistakes {
            missed_object_samples: 31,
            false_track_samples: 32,
            identity_switch_count: 33,
            track_fragment_count: 34,
        },
        tracks_with_truth_ego: TrackMistakes {
            missed_object_samples: 41,
            false_track_samples: 42,
            identity_switch_count: 43,
            track_fragment_count: 44,
        },
    }
}

fn timing(timing_compensation: bool, maximum_delivery_age_ns: i64) -> TimingDiagnostics {
    TimingDiagnostics {
        timing_compensation,
        history_duration_ns: 0,
        received_measurements: 9,
        delayed_measurements: 5,
        replayed_measurements: 4,
        discarded_measurements: 1,
        revised_estimates: 2,
        maximum_delivery_age_ns,
        freshness_observed_at_ns: Some(1),
        gps_freshness: SensorFreshness {
            final_receipt_age_ns: Some(100_000_000),
            final_measurement_age_ns: Some(200_000_000),
            maximum_receipt_gap_ns: Some(300_000_000),
        },
        imu_freshness: SensorFreshness {
            final_receipt_age_ns: None,
            final_measurement_age_ns: None,
            maximum_receipt_gap_ns: None,
        },
    }
}

const HEAD: &str = "# Run result\n\n\
    GPS and IMU estimate the vehicle. Camera and lidar track objects.\n\n\
    ## Vehicle\n\n\
    Estimator: imu_bias  \nPosition RMSE: 0.123 m  \nHeading RMSE: 0.045 rad  \n\
    GPS fixes accepted/rejected/invalid: 3/2/1\n\n\
    ## Objects\n\n\
    Truth ego position RMSE: 0.200 m  \nEstimated ego position RMSE: 0.300 m  \n\
    Cost of estimated ego: +0.100 m\n\n\
    Estimated-ego associations, camera/lidar: 11/12  \n\
    Unmatched camera/lidar detections: 13/14  \n\
    Tracks created/confirmed/deleted: 15/16/17\n\
    Candidate pairs/gated out/selected: 18/19/20  \n\
    Missed/coasted tracker updates: 21/22  \n\
    Estimated ego missed/false/switches/fragments: 31/32/33/34  \n\
    Truth ego missed/false/switches/fragments: 41/42/43/44\n";

const TAIL: &str = "\n## Sensor freshness\n\n\
    Ages at the last GPS/IMU arrival; received packets, regardless of filter acceptance.\n\n\
    Sensor | Receipt age | Measurement age | Maximum receipt gap\n--- | --- | --- | ---\n\
    GPS | 0.100 s | 0.200 s | 0.300 s\n\
    IMU | unavailable | unavailable | unavailable\n\n\
    Maximum receipt gap includes trailing silence after the first packet. \
    Unavailable means no packet was received.\n";

#[test]
fn a_punctual_run_says_nothing_of_delays() {
    let summary = write_reports(
        &metrics(),
        &timing(false, 0),
        &fixes(),
        &tracker(),
        &assumptions(None),
    );
    assert_eq!(summary, format!("{HEAD}{TAIL}"));
}

#[test]
fn delays_are_shown_in_arrival_order() {
    let summary = write_reports(
        &metrics(),
        &timing(false, 1),
        &fixes(),
        &tracker(),
        &assumptions(None),
    );
    let delays = "\n## Vehicle timing\n\n\
        Processing: arrival order  \n\
        Delayed measurements: 5  \n\
        Delayed measurements reordered: 4  \n\
        Revised estimates: 2  \n\
        Discarded measurements: 1  \n\
        Maximum arrival delay: 250.0 ms\n";
    assert_eq!(summary, format!("{HEAD}{delays}{TAIL}"));
}

#[test]
fn compensation_is_always_shown() {
    let summary = write_reports(
        &metrics(),
        &timing(true, 0),
        &fixes(),
        &tracker(),
        &assumptions(None),
    );
    assert!(summary.contains("Processing: offline measurement-time order  \n"));
}

#[test]
fn biases_are_shown_only_together() {
    let mut metrics = metrics();
    metrics.gyro_bias_rmse_radps = text("0.000100");
    metrics.accel_bias_rmse_mps2 = text("0.002000");
    metrics.gyro_bias_coverage = text("95.0");
    let without = write_reports(
        &metrics,
        &timing(false, 0),
        &fixes(),
        &tracker(),
        &assumptions(None),
    );
    assert_eq!(without, format!("{HEAD}{TAIL}"));
    metrics.accel_bias_coverage = text("94.0");
    let with = write_reports(
        &metrics,
        &timing(false, 0),
        &fixes(),
        &tracker(),
        &assumptions(None),
    );
    let biases = "\n## IMU bias\n\n\
        Gyroscope bias RMSE: 0.000100 rad/s  \n\
        True gyroscope bias inside the 95% range: 95.0%  \n\
        Accelerometer bias RMSE: 0.002000 m/s²  \n\
        True accelerometer bias inside the 95% range: 94.0%\n";
    assert_eq!(with, format!("{HEAD}{biases}{TAIL}"));
}

#[test]
fn what_is_missing_is_marked() {
    let mut metrics = metrics();
    metrics.truth_ego_track_rmse_m = None;
    metrics.ego_cost_m = None;
    let summary = write_reports(
        &metrics,
        &timing(false, 0),
        &fixes(),
        &tracker(),
        &assumptions(Some("GTSAM 4.2")),
    );
    assert!(summary.contains("Estimator: imu_bias (GTSAM 4.2)  \n"));
    assert!(summary.contains("Truth ego position RMSE: — (no matched tracks)  \n"));
    assert!(summary.contains("Cost of estimated ego: —\n\n"));
    assert_eq!(display_track_rmse(&None), "— (no matched tracks)");
    assert_eq!(display_track_rmse(&text("1.000")), "1.000 m");
}
