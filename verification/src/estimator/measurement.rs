//! One delivery to the ego filter.
use vstd::prelude::*;

use crate::messages::{GpsFix, ImuSample, MeasurementTime};

verus! {

#[derive(Debug, Clone, Copy, PartialEq, Eq, Structural)]
pub enum EgoMeasurement {
    Imu(ImuSample),
    Gps(GpsFix),
}

impl EgoMeasurement {
    pub open spec fn optional_time(self) -> Option<MeasurementTime> {
        match self {
            EgoMeasurement::Imu(value) => value.time,
            EgoMeasurement::Gps(value) => value.time,
        }
    }

    /// Whether the delivery carries its times, as every generated one does.
    pub open spec fn has_time(self) -> bool {
        self.optional_time() is Some
    }

    /// When it was measured.
    pub open spec fn stamp(self) -> int {
        self.optional_time()->0.measurement_time_ns as int
    }

    /// When it was delivered.
    pub open spec fn arrival(self) -> int {
        self.optional_time()->0.arrival_time_ns as int
    }

    pub open spec fn is_gps(self) -> bool {
        self is Gps
    }

    pub open spec fn is_imu(self) -> bool {
        self is Imu
    }

    pub fn time(&self) -> (time: &MeasurementTime)
        requires
            self.has_time(),
        ensures
            Some(*time) == self.optional_time(),
    {
        match self {
            EgoMeasurement::Imu(value) => value.time.as_ref().unwrap(),
            EgoMeasurement::Gps(value) => value.time.as_ref().unwrap(),
        }
    }
}

/// Whether every delivery carries its times.
pub open spec fn all_timed(measurements: Seq<EgoMeasurement>) -> bool {
    forall|i: int| 0 <= i < measurements.len() ==> (#[trigger] measurements[i]).has_time()
}

/// Why a stream of deliveries is refused.
#[derive(Debug, Clone, Copy, PartialEq, Eq, Structural)]
pub enum DeliveryError {
    ArrivesBeforeMeasured,
    OutOfOrder,
}

/// Whether the delivery at `index` was measured no later than it arrived.
pub open spec fn was_measured_first(measurements: Seq<EgoMeasurement>, index: int) -> bool {
    measurements[index].arrival() >= measurements[index].stamp()
}

/// Whether the delivery at `index` arrived no earlier than the one before it.
pub open spec fn arrives_in_turn(measurements: Seq<EgoMeasurement>, index: int) -> bool {
    index > 0 ==> measurements[index].arrival() >= measurements[index - 1].arrival()
}

/// Whether the delivery at `index` keeps the order of deliveries.
pub open spec fn is_orderly(measurements: Seq<EgoMeasurement>, index: int) -> bool {
    was_measured_first(measurements, index) && arrives_in_turn(measurements, index)
}

/// Whether the first `count` deliveries are in order: none before it was measured, none before
/// the one ahead of it.
pub open spec fn delivered_in_order(measurements: Seq<EgoMeasurement>, count: int) -> bool {
    forall|i: int| 0 <= i < count ==> #[trigger] is_orderly(measurements, i)
}

/// Whether the delivery at `index` is the first to break the order.
pub open spec fn breaks_order_first(measurements: Seq<EgoMeasurement>, index: int) -> bool {
    &&& 0 <= index < measurements.len()
    &&& delivered_in_order(measurements, index)
    &&& !is_orderly(measurements, index)
}

/// Whether `verdict` is what the order of deliveries deserves: the first of them that breaks it
/// decides, and one that breaks it both ways counts as arriving before it was measured.
pub open spec fn is_delivery_verdict(
    measurements: Seq<EgoMeasurement>,
    verdict: Result<(), DeliveryError>,
) -> bool {
    match verdict {
        Ok(()) => delivered_in_order(measurements, measurements.len() as int),
        Err(error) => exists|i: int| #[trigger]
            breaks_order_first(measurements, i) && error == (if was_measured_first(
                measurements,
                i,
            ) {
                DeliveryError::OutOfOrder
            } else {
                DeliveryError::ArrivesBeforeMeasured
            }),
    }
}

/// Tests the order of deliveries.
pub fn validate_delivery_order(measurements: &[EgoMeasurement]) -> (verdict: Result<
    (),
    DeliveryError,
>)
    requires
        all_timed(measurements@),
    ensures
        is_delivery_verdict(measurements@, verdict),
        verdict is Ok <==> delivered_in_order(measurements@, measurements.len() as int),
{
    let mut previous: Option<i64> = None;
    let mut index: usize = 0;
    while index < measurements.len()
        invariant
            index <= measurements.len(),
            all_timed(measurements@),
            delivered_in_order(measurements@, index as int),
            index == 0 ==> previous is None,
            index > 0 ==> previous is Some && previous->0 == measurements@[index - 1].arrival(),
        decreases measurements.len() - index,
    {
        let time = measurements[index].time();
        if time.arrival_time_ns < time.measurement_time_ns {
            assert(breaks_order_first(measurements@, index as int));
            return Err(DeliveryError::ArrivesBeforeMeasured);
        }
        if let Some(before) = previous {
            if time.arrival_time_ns < before {
                assert(breaks_order_first(measurements@, index as int));
                return Err(DeliveryError::OutOfOrder);
            }
        }
        assert(is_orderly(measurements@, index as int));
        previous = Some(time.arrival_time_ns);
        index = index + 1;
    }
    Ok(())
}

impl DeliveryError {
    pub open spec fn spec_message(self) -> Seq<char> {
        match self {
            DeliveryError::ArrivesBeforeMeasured =>
                "ego measurement arrives before its measurement time"@,
            DeliveryError::OutOfOrder => "ego measurements are not in arrival order"@,
        }
    }

    /// The error in words.
    pub fn message(&self) -> (text: String)
        ensures
            text@ == self.spec_message(),
    {
        match self {
            DeliveryError::ArrivesBeforeMeasured =>
                "ego measurement arrives before its measurement time".to_owned(),
            DeliveryError::OutOfOrder => "ego measurements are not in arrival order".to_owned(),
        }
    }
}

/// In an accepted stream a delivery never overtakes an earlier one, however far apart.
pub proof fn law_arrivals_ascend(measurements: Seq<EgoMeasurement>, i: int, j: int)
    requires
        delivered_in_order(measurements, measurements.len() as int),
        0 <= i <= j < measurements.len(),
    ensures
        measurements[i].arrival() <= measurements[j].arrival(),
    decreases j - i,
{
    if i < j {
        law_arrivals_ascend(measurements, i, j - 1);
        assert(is_orderly(measurements, j));
    }
}

/// The order of a stream is refused for exactly one reason.
pub proof fn law_delivery_verdict_is_unique(
    measurements: Seq<EgoMeasurement>,
    a: Result<(), DeliveryError>,
    b: Result<(), DeliveryError>,
)
    requires
        is_delivery_verdict(measurements, a),
        is_delivery_verdict(measurements, b),
    ensures
        a is Ok <==> b is Ok,
        a is Err ==> a->Err_0 == b->Err_0,
{
    assert forall|i: int, j: int|
        #[trigger] breaks_order_first(measurements, i) && #[trigger] breaks_order_first(
            measurements,
            j,
        ) implies i == j by {
        assert(!is_orderly(measurements, i) && !is_orderly(measurements, j));
    }
    assert forall|i: int| #[trigger] breaks_order_first(measurements, i) implies a is Err
        && b is Err by {
        assert(!is_orderly(measurements, i));
    }
}

} // verus!
