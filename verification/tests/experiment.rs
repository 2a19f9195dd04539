use fusion::binary64::Binary64;
use fusion::bundle::{GeneratedRun, MeasurementRecord};
use fusion::estimator::EgoMeasurement;
use fusion::experiment::{
    already_exists_message, different_detections_message, ego_measurements, output_exists_message,
    perception_measurements, run_resolved_experiment, ExperimentDecision, ExperimentStep,
    PerceptionMeasurement, RunPath, RunTarget, ScoreDecision, ScoreOutcome, ScoreRejection,
    ScoreStep, ScoredOutput, StepOutcome,
};
use fusion::messages::{
    CameraFrame, EgoStateEstimate, EgoTruthState, GpsFix, ImuSample, LidarScan,
};
use fusion::progress::{
    Progress, ScoreInput, ScoreProduct, ScoreProgress, StepInput, StepOutput,
};
use fusion::{
    generate_bundle, next_run_path, run_experiment, run_numbered_experiment, score_ego_csv,
    score_tracks_csv, validate_external_id,
};

const ALL_STEPS: [ExperimentStep; 18] = [
    ExperimentStep::ResolveScenario,
    ExperimentStep::PrepareOutput,
    ExperimentStep::GenerateMeasurements,
    ExperimentStep::EstimateEgo,
    ExperimentStep::RecordEstimatedEgo,
    ExperimentStep::TrackWithEstimatedEgo,
    ExperimentStep::RecordTruthEgo,
    ExperimentStep::TrackWithTruthEgo,
    ExperimentStep::CompareDetections,
    ExperimentStep::Evaluate,
    ExperimentStep::WriteGenerated,
    ExperimentStep::WriteEgoEstimates,
    ExperimentStep::WriteEstimatedEgoTracks,
    ExperimentStep::WriteTruthEgoTracks,
    ExperimentStep::WriteEstimatedEgoHistory,
    ExperimentStep::WriteTruthEgoHistory,
    ExperimentStep::WriteReports,
    ExperimentStep::Visualize,
];

#[test]
fn an_experiment_takes_every_step_in_turn() {
    let mut taken = Vec::new();
    let mut last = None;
    while let ExperimentDecision::Next(step) = run_experiment(last) {
        taken.push(step);
        last = Some((step, StepOutcome::Succeeded));
    }
    assert_eq!(taken, ALL_STEPS.to_vec());
    assert_eq!(run_experiment(last), ExperimentDecision::Finished);
}

#[test]
fn a_visualization_is_made_only_if_asked_for() {
    for build_visualization in [false, true] {
        let mut taken = Vec::new();
        let mut last = None;
        while let ExperimentDecision::Next(step) =
            run_resolved_experiment(last, build_visualization)
        {
            taken.push(step);
            last = Some((step, StepOutcome::Succeeded));
        }
        let end = if build_visualization { 18 } else { 17 };
        assert_eq!(taken, ALL_STEPS[1..end].to_vec());
    }
}

#[test]
fn a_failed_step_ends_an_experiment() {
    for step in ALL_STEPS {
        let expected = if step == ExperimentStep::CompareDetections {
            ExperimentDecision::DifferentDetections
        } else {
            ExperimentDecision::Failed(step)
        };
        assert_eq!(run_experiment(Some((step, StepOutcome::Failed))), expected);
    }
    assert_eq!(
        different_detections_message(),
        "tracker comparison did not use identical detections"
    );
}

#[test]
fn generating_writes_only_what_was_generated() {
    let mut taken = Vec::new();
    let mut last = None;
    while let ExperimentDecision::Next(step) = generate_bundle(last) {
        taken.push(step);
        last = Some((step, StepOutcome::Succeeded));
    }
    assert_eq!(
        taken,
        vec![
            ExperimentStep::ResolveScenario,
            ExperimentStep::PrepareOutput,
            ExperimentStep::GenerateMeasurements,
            ExperimentStep::WriteGenerated,
        ]
    );
    assert_eq!(
        generate_bundle(Some((ExperimentStep::PrepareOutput, StepOutcome::Failed))),
        ExperimentDecision::Failed(ExperimentStep::PrepareOutput)
    );
}

#[test]
fn deliveries_go_to_the_filter_or_to_the_trackers() {
    let zero = Binary64 { bits: 0 };
    let imu = ImuSample {
        time: None,
        yaw_rate_radps: zero,
        forward_acceleration_mps2: zero,
    };
    let gps = GpsFix {
        time: None,
        position_world_m: None,
        horizontal_position_variance_m2: zero,
    };
    let records = vec![
        MeasurementRecord::Camera(CameraFrame {
            time: None,
            content: vec![1],
        }),
        MeasurementRecord::Imu(imu),
        MeasurementRecord::Lidar(LidarScan {
            time: None,
            content: vec![2],
        }),
        MeasurementRecord::Gps(gps),
    ];
    assert_eq!(
        ego_measurements(&records),
        vec![EgoMeasurement::Imu(imu), EgoMeasurement::Gps(gps)]
    );
    let perception = perception_measurements(&records);
    assert_eq!(perception.len(), 2);
    assert!(matches!(
        &perception[0],
        PerceptionMeasurement::Camera(frame) if frame.content == vec![1]
    ));
    assert!(matches!(
        &perception[1],
        PerceptionMeasurement::Lidar(scan) if scan.content == vec![2]
    ));
}

#[test]
fn runs_are_numbered_from_the_first_free_place() {
    assert!(matches!(next_run_path(&[]), RunPath::Probe { name } if name == "run001"));
    assert!(matches!(next_run_path(&[true, true]), RunPath::Probe { name } if name == "run003"));
    assert!(
        matches!(next_run_path(&[true, false, true, false]), RunPath::Free { name } if name == "run002")
    );
    let many = vec![true; 1233];
    assert!(matches!(next_run_path(&many), RunPath::Probe { name } if name == "run1234"));
}

#[test]
fn an_output_that_is_asked_for_is_used() {
    assert!(matches!(
        run_numbered_experiment(Some("out/a".to_string())),
        RunTarget::Given { path } if path == "out/a"
    ));
    assert!(matches!(
        run_numbered_experiment::<String>(None),
        RunTarget::Numbered { root } if root == "runs"
    ));
}

#[test]
fn ids_are_plain() {
    for id in ["a", "Z9", "my-filter_2", "-", "_", "0"] {
        assert!(validate_external_id(id).is_ok(), "{id}");
    }
    for id in ["", "a b", "a/b", "..", "ä", "a.mcap", "a\n"] {
        assert_eq!(
            validate_external_id(id).unwrap_err().message(),
            "ID must contain only letters, numbers, '-' and '_'"
        );
    }
}

#[test]
fn scoring_takes_every_step_in_turn() {
    let outcomes = [
        (ScoreStep::ResolveScenario, ScoreOutcome::Succeeded),
        (ScoreStep::ReadCsv, ScoreOutcome::Succeeded),
        (
            ScoreStep::LookUpDestination,
            ScoreOutcome::Found { exists: false },
        ),
        (ScoreStep::ReadRun, ScoreOutcome::Succeeded),
        (
            ScoreStep::Evaluate,
            ScoreOutcome::Evaluated {
                matched: 1,
                samples: 9,
            },
        ),
        (ScoreStep::WriteOutput, ScoreOutcome::Succeeded),
        (ScoreStep::WriteReport, ScoreOutcome::Succeeded),
    ];
    for score in [score_ego_csv, score_tracks_csv] {
        let mut last = None;
        for (step, outcome) in outcomes {
            assert_eq!(score("mine", last), ScoreDecision::Next(step));
            last = Some((step, outcome));
        }
        assert_eq!(score("mine", last), ScoreDecision::Finished);
    }
}

#[test]
fn scoring_is_refused_with_a_reason() {
    for score in [score_ego_csv, score_tracks_csv] {
        assert_eq!(
            score("not ok", None),
            ScoreDecision::Rejected(ScoreRejection::InvalidId)
        );
        assert_eq!(
            score(
                "mine",
                Some((
                    ScoreStep::LookUpDestination,
                    ScoreOutcome::Found { exists: true }
                ))
            ),
            ScoreDecision::Rejected(ScoreRejection::AlreadyExists)
        );
        assert_eq!(
            score(
                "mine",
                Some((
                    ScoreStep::Evaluate,
                    ScoreOutcome::Evaluated {
                        matched: 0,
                        samples: 9
                    }
                ))
            ),
            ScoreDecision::Rejected(ScoreRejection::NothingMatched { samples: 9 })
        );
        assert_eq!(
            score("mine", Some((ScoreStep::ReadCsv, ScoreOutcome::Failed))),
            ScoreDecision::Failed(ScoreStep::ReadCsv)
        );
    }
}

#[test]
fn scoring_says_what_is_wrong() {
    assert_eq!(
        ScoredOutput::EgoEstimates.nothing_matched_message(9, "25"),
        "cannot score ego output: 0 of 9 estimates matched truth within 25 ms"
    );
    assert_eq!(
        ScoredOutput::Tracks.nothing_matched_message(0, "0.5"),
        "cannot score track output: 0 of 0 tracks matched truth within 0.5 ms"
    );
    assert_eq!(
        already_exists_message("run/estimates/mine.mcap"),
        "run/estimates/mine.mcap already exists"
    );
    assert_eq!(
        output_exists_message("runs/run001"),
        "output directory runs/run001 already exists"
    );
    assert_eq!(
        ScoredOutput::EgoEstimates.destination("mine"),
        "estimates/mine.mcap"
    );
    assert_eq!(ScoredOutput::Tracks.destination("mine"), "tracks/mine.mcap");
}

fn generated() -> GeneratedRun {
    let zero = Binary64 { bits: 0 };
    GeneratedRun {
        measurements: vec![
            MeasurementRecord::Lidar(LidarScan {
                time: None,
                content: vec![2],
            }),
            MeasurementRecord::Imu(ImuSample {
                time: None,
                yaw_rate_radps: zero,
                forward_acceleration_mps2: zero,
            }),
        ],
        ego_truth_states: vec![EgoTruthState {
            time_ns: 5,
            content: vec![6],
        }],
        object_truth_states: vec![],
        imu_bias_truth: vec![],
    }
}

#[test]
fn steps_are_given_what_was_made_before_them() {
    let mut progress: Progress<&str, &str, &str, &str> = Progress::new(None);
    assert!(matches!(
        progress.input(ExperimentStep::ResolveScenario),
        Some(StepInput::Nothing)
    ));
    assert!(progress.input(ExperimentStep::PrepareOutput).is_none());
    progress.keep(StepOutput::Scenario("scenario"));
    assert!(matches!(
        progress.input(ExperimentStep::GenerateMeasurements),
        Some(StepInput::Scenario(&"scenario"))
    ));
    assert!(progress.input(ExperimentStep::EstimateEgo).is_none());
    assert!(progress.input(ExperimentStep::WriteGenerated).is_none());
    progress.keep(StepOutput::Generated(generated()));
    assert!(matches!(
        progress.input(ExperimentStep::WriteGenerated),
        Some(StepInput::Generated(generated)) if generated.measurements.len() == 2
    ));
    match progress.input(ExperimentStep::EstimateEgo) {
        Some(StepInput::Deliveries { measurements, .. }) => {
            assert_eq!(measurements.len(), 1);
            assert!(matches!(measurements[0], EgoMeasurement::Imu(_)));
        }
        _ => panic!("the filter has its deliveries"),
    }
    assert!(matches!(
        progress.input(ExperimentStep::RecordTruthEgo),
        Some(StepInput::TruthStates(states)) if states[0].content == vec![6]
    ));
    progress.keep(StepOutput::EstimatedHistory("estimated"));
    progress.keep(StepOutput::TruthHistory("truth"));
    for (step, name) in [
        (ExperimentStep::TrackWithEstimatedEgo, "estimated"),
        (ExperimentStep::TrackWithTruthEgo, "truth"),
    ] {
        match progress.input(step) {
            Some(StepInput::Tracking {
                measurements,
                history,
                ..
            }) => {
                assert_eq!(*history, name);
                assert_eq!(measurements.len(), 1);
                assert!(matches!(
                    &measurements[0],
                    PerceptionMeasurement::Lidar(scan) if scan.content == vec![2]
                ));
            }
            _ => panic!("a tracker has its deliveries"),
        }
    }
    progress.keep(StepOutput::EstimatedTracks("first"));
    assert!(progress.input(ExperimentStep::CompareDetections).is_none());
    progress.keep(StepOutput::TruthTracks("second"));
    assert!(matches!(
        progress.input(ExperimentStep::CompareDetections),
        Some(StepInput::Trackers {
            estimated: &"first",
            truth: &"second",
        })
    ));
    for (step, file, run) in [
        (ExperimentStep::WriteEstimatedEgoTracks, "estimated-ego", "first"),
        (ExperimentStep::WriteEstimatedEgoHistory, "estimated-ego", "first"),
        (ExperimentStep::WriteTruthEgoTracks, "truth-ego", "second"),
        (ExperimentStep::WriteTruthEgoHistory, "truth-ego", "second"),
    ] {
        assert!(matches!(
            progress.input(step),
            Some(StepInput::Tracker { name, tracks }) if name == file && *tracks == run
        ));
    }
    assert!(progress.input(ExperimentStep::Evaluate).is_none());
    progress.keep(StepOutput::Metrics("metrics"));
    assert!(progress.input(ExperimentStep::WriteReports).is_none());
    progress.keep(StepOutput::Nothing);
    assert_eq!(progress.metrics, Some("metrics"));
}

#[test]
fn what_is_read_is_scored_and_written() {
    let estimates = vec![EgoStateEstimate {
        estimate_time_ns: 1,
        available_time_ns: 2,
        pose_world: None,
        forward_speed_mps: Binary64 { bits: 0 },
        state_covariance: vec![],
        gyro_bias_z_radps: None,
        accel_bias_x_mps2: None,
    }];
    let mut progress: ScoreProgress<&str, Vec<EgoStateEstimate>, &str, &str> =
        ScoreProgress::new();
    assert!(matches!(
        progress.input(ScoreStep::ReadCsv),
        Some(ScoreInput::Nothing)
    ));
    assert!(progress.input(ScoreStep::WriteOutput).is_none());
    progress.keep(ScoreProduct::Scenario("scenario"));
    progress.keep(ScoreProduct::Output(estimates));
    progress.keep(ScoreProduct::Nothing);
    assert!(progress.input(ScoreStep::Evaluate).is_none());
    progress.keep(ScoreProduct::Run("truth"));
    assert!(matches!(
        progress.input(ScoreStep::Evaluate),
        Some(ScoreInput::Evaluation {
            scenario: &"scenario",
            run: &"truth",
            output,
        }) if output[0].available_time_ns == 2
    ));
    assert!(progress.input(ScoreStep::WriteReport).is_none());
    progress.keep(ScoreProduct::Metrics("metrics"));
    assert!(matches!(
        progress.input(ScoreStep::WriteOutput),
        Some(ScoreInput::Output(output)) if output.len() == 1
    ));
    assert!(matches!(
        progress.input(ScoreStep::WriteReport),
        Some(ScoreInput::Report(&"metrics"))
    ));
}

#[test]
fn a_second_scoring_by_the_same_name_writes_nothing() {
    for score in [score_ego_csv, score_tracks_csv] {
        let mut taken = Vec::new();
        let mut last = None;
        let end = loop {
            match score("mine", last) {
                ScoreDecision::Next(step) => {
                    let outcome = if step == ScoreStep::LookUpDestination {
                        ScoreOutcome::Found { exists: true }
                    } else {
                        ScoreOutcome::Succeeded
                    };
                    taken.push(step);
                    last = Some((step, outcome));
                }
                decision => break decision,
            }
        };
        assert_eq!(
            end,
            ScoreDecision::Rejected(ScoreRejection::AlreadyExists)
        );
        assert_eq!(
            taken,
            vec![
                ScoreStep::ResolveScenario,
                ScoreStep::ReadCsv,
                ScoreStep::LookUpDestination,
            ]
        );
    }
}
