//! Sensor fusion experiments: timing, estimation, storage and reporting rules.
pub mod binary64;
pub mod bundle;
pub mod bundle_laws;
pub mod container;
pub mod course_laws;
pub mod estimator;
pub mod experiment;
pub mod experiment_laws;
pub mod file_laws;
pub mod messages;
pub mod number_laws;
pub mod pipeline;
pub mod pipeline_laws;
pub mod pipeline_report_laws;
pub mod progress;
pub mod report;
pub mod report_laws;
pub mod round_trip;
pub mod scenario;
pub mod sensor;
pub mod text;

pub use experiment::{
    generate_bundle, next_run_path, run_experiment, run_numbered_experiment,
    run_resolved_experiment, score_ego_csv, score_tracks_csv, validate_external_id,
};
