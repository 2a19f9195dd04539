//! Running an ego filter over a stream of deliveries.
pub mod answer_laws;
pub mod delivery_laws;
pub mod diagnostics;
pub mod estimate;
pub mod laws;
pub mod measurement;
pub mod request_laws;
pub mod run;
pub mod schedule;
pub mod schedule_laws;
pub mod settings;
pub mod timing;

pub use self::diagnostics::{GpsDiagnostics, UpdateResult};
pub use self::estimate::{validate_estimate, EstimateError};
pub use self::measurement::{validate_delivery_order, DeliveryError, EgoMeasurement};
pub use self::run::{
    estimator_error, run, schedule, EgoSensor, EstimatorError, EstimatorRun, FilterReply,
};
pub use self::schedule::{FilterAction, Schedule};
pub use self::settings::{
    require_backend, ActiveEstimator, EstimatorAssumptions, EstimatorSettings, ImuProcessNoise,
    InitialVariances, MissingBackend,
};
pub use self::timing::{timing, SensorFreshness, TimingDiagnostics};
