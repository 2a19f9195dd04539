//! What the sensors deliver.
pub mod gps;
pub mod gps_laws;

use vstd::prelude::*;

use crate::bundle::MeasurementRecord;
use crate::messages::{ImuBiasTruth, MeasurementTime};

verus! {

/// A measurement on its way. Those that arrive together are delivered by priority, then by name.
#[derive(Debug)]
pub struct PendingMeasurement {
    pub arrival_ns: i64,
    pub priority: u8,
    pub stable_event_id: String,
    pub measurement: MeasurementRecord,
    pub imu_bias_truth: Option<ImuBiasTruth>,
}

pub open spec fn spec_measurement_time(time_ns: i64, arrival_ns: i64) -> MeasurementTime {
    MeasurementTime { measurement_time_ns: time_ns, arrival_time_ns: arrival_ns }
}

pub fn measurement_time(time_ns: i64, arrival_ns: i64) -> (time: MeasurementTime)
    ensures
        time == spec_measurement_time(time_ns, arrival_ns),
{
    MeasurementTime { measurement_time_ns: time_ns, arrival_time_ns: arrival_ns }
}

} // verus!
