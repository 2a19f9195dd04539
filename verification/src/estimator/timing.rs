//! How fresh the sensors were, and how the run treated late deliveries.
use vstd::prelude::*;

use crate::scenario::EgoEstimatorConfig;

use super::measurement::{all_timed, EgoMeasurement};

verus! {

#[derive(Debug, Clone, Copy, PartialEq, Eq, Structural)]
pub struct SensorFreshness {
    /// Ages at the last arrival in the complete ego input stream, not wall time.
    /// None means this sensor never delivered a packet.
    pub final_receipt_age_ns: Option<i64>,
    pub final_measurement_age_ns: Option<i64>,
    /// Longest interval between deliveries, including trailing silence.
    /// Time before the first packet is excluded because its start is unknown.
    pub maximum_receipt_gap_ns: Option<i64>,
}

#[derive(Debug, Clone, Copy, PartialEq, Eq, Structural)]
pub struct TimingDiagnostics {
    pub timing_compensation: bool,
    pub history_duration_ns: i64,
    pub received_measurements: usize,
    pub delayed_measurements: usize,
    pub replayed_measurements: usize,
    pub discarded_measurements: usize,
    pub revised_estimates: usize,
    pub maximum_delivery_age_ns: i64,
    pub freshness_observed_at_ns: Option<i64>,
    pub gps_freshness: SensorFreshness,
    pub imu_freshness: SensorFreshness,
}

/// The nearest value that fits 64 bits.
pub open spec fn saturated(value: int) -> int {
    if value > i64::MAX {
        i64::MAX as int
    } else if value < i64::MIN {
        i64::MIN as int
    } else {
        value
    }
}

/// `later - earlier`, or the nearest value that fits.
pub fn elapsed_ns(later: i64, earlier: i64) -> (elapsed: i64)
    ensures
        elapsed == saturated(later - earlier),
{
    let exact: i128 = later as i128 - earlier as i128;
    if exact > i64::MAX as i128 {
        i64::MAX
    } else if exact < i64::MIN as i128 {
        i64::MIN
    } else {
        exact as i64
    }
}

/// Whether the delivery at `index` is of the sensor in question: GPS or IMU.
pub open spec fn is_from(measurements: Seq<EgoMeasurement>, gps: bool, index: int) -> bool {
    measurements[index].is_gps() == gps
}

/// Whether the sensor delivered anything among the first `count`.
pub open spec fn delivered_any(
    measurements: Seq<EgoMeasurement>,
    gps: bool,
    count: int,
) -> bool {
    exists|i: int| 0 <= i < count && #[trigger] is_from(measurements, gps, i)
}

/// Whether the delivery at `index` is the sensor's last among the first `count`.
pub open spec fn is_last_delivery(
    measurements: Seq<EgoMeasurement>,
    gps: bool,
    count: int,
    index: int,
) -> bool {
    &&& 0 <= index < count
    &&& is_from(measurements, gps, index)
    &&& forall|i: int| index < i < count ==> !#[trigger] is_from(measurements, gps, i)
}

/// Whether `stamp` is the newest measurement time that the sensor delivered among the first
/// `count`.
pub open spec fn is_newest_stamp(
    measurements: Seq<EgoMeasurement>,
    gps: bool,
    count: int,
    stamp: int,
) -> bool {
    &&& exists|i: int|
        0 <= i < count && #[trigger] is_from(measurements, gps, i) && measurements[i].stamp()
            == stamp
    &&& forall|i: int|
        0 <= i < count && #[trigger] is_from(measurements, gps, i) ==> measurements[i].stamp()
            <= stamp
}

/// Whether the deliveries at `i` and `j` are the sensor's, with none of its own in between.
pub open spec fn are_successive(
    measurements: Seq<EgoMeasurement>,
    gps: bool,
    i: int,
    j: int,
) -> bool {
    &&& 0 <= i < j
    &&& is_from(measurements, gps, i)
    &&& is_from(measurements, gps, j)
    &&& forall|k: int| i < k < j ==> !#[trigger] is_from(measurements, gps, k)
}

/// How long the sensor was silent between the deliveries at `i` and `j`.
pub open spec fn silence(measurements: Seq<EgoMeasurement>, i: int, j: int) -> int {
    saturated(measurements[j].arrival() - measurements[i].arrival())
}

/// Whether `gap` is the sensor's longest silence between two successive deliveries among the
/// first `count`, or zero if there is none above it.
pub open spec fn is_longest_silence(
    measurements: Seq<EgoMeasurement>,
    gps: bool,
    count: int,
    gap: int,
) -> bool {
    &&& gap >= 0
    &&& forall|i: int, j: int|
        j < count && #[trigger] are_successive(measurements, gps, i, j) ==> silence(
            measurements,
            i,
            j,
        ) <= gap
    &&& gap == 0 || exists|i: int, j: int|
        j < count && #[trigger] are_successive(measurements, gps, i, j) && silence(
            measurements,
            i,
            j,
        ) == gap
}

/// Whether `freshness` describes the sensor's deliveries. All ages are taken at the last arrival
/// of the stream.
pub open spec fn is_freshness(
    measurements: Seq<EgoMeasurement>,
    gps: bool,
    freshness: SensorFreshness,
) -> bool {
    let count = measurements.len() as int;
    if delivered_any(measurements, gps, count) {
        let now = measurements[count - 1].arrival();
        &&& freshness.final_receipt_age_ns matches Some(age) && exists|last: int|
            #[trigger] is_last_delivery(measurements, gps, count, last) && age == saturated(
                now - measurements[last].arrival(),
            )
        &&& freshness.final_measurement_age_ns matches Some(age) && exists|stamp: int|
            #[trigger] is_newest_stamp(measurements, gps, count, stamp) && age == saturated(
                now - stamp,
            )
        &&& freshness.maximum_receipt_gap_ns matches Some(longest) && exists|gap: int|
            #[trigger] is_longest_silence(measurements, gps, count, gap) && longest == (if gap
                >= freshness.final_receipt_age_ns->0 {
                gap
            } else {
                freshness.final_receipt_age_ns->0 as int
            })
    } else {
        &&& freshness.final_receipt_age_ns is None
        &&& freshness.final_measurement_age_ns is None
        &&& freshness.maximum_receipt_gap_ns is None
    }
}

/// Describes one sensor's deliveries. Every packet counts, whether the filter used it or not.
pub fn sensor_freshness(measurements: &[EgoMeasurement], gps: bool) -> (freshness: SensorFreshness)
    requires
        all_timed(measurements@),
    ensures
        is_freshness(measurements@, gps, freshness),
{
    let mut last_arrival: Option<i64> = None;
    let mut latest_measurement: Option<i64> = None;
    let mut maximum_gap: i64 = 0;
    let mut index: usize = 0;
    let ghost mut last: int = 0;
    while index < measurements.len()
        invariant
            index <= measurements.len(),
            all_timed(measurements@),
            last_arrival is Some <==> delivered_any(measurements@, gps, index as int),
            latest_measurement is Some <==> last_arrival is Some,
            last_arrival is Some ==> is_last_delivery(measurements@, gps, index as int, last),
            last_arrival is Some ==> last_arrival->0 == measurements@[last].arrival(),
            last_arrival is Some ==> is_newest_stamp(
                measurements@,
                gps,
                index as int,
                latest_measurement->0 as int,
            ),
            is_longest_silence(measurements@, gps, index as int, maximum_gap as int),
        decreases measurements.len() - index,
    {
        let measurement = &measurements[index];
        let of_sensor = match measurement {
            EgoMeasurement::Gps(_) => gps,
            EgoMeasurement::Imu(_) => !gps,
        };
        let ghost place = index as int;
        assert(of_sensor == is_from(measurements@, gps, place));
        if of_sensor {
            let time = measurement.time();
            let ghost old_gap = maximum_gap as int;
            let ghost had = last_arrival is Some;
            if let Some(previous) = last_arrival {
                let gap = elapsed_ns(time.arrival_time_ns, previous);
                if gap > maximum_gap {
                    maximum_gap = gap;
                }
            }
            proof {
                lemma_next_silence(
                    measurements@,
                    gps,
                    place,
                    had,
                    last,
                    old_gap,
                    maximum_gap as int,
                );
            }
            last_arrival = Some(time.arrival_time_ns);
            let ghost old_latest = latest_measurement;
            latest_measurement = match latest_measurement {
                Some(previous) if previous >= time.measurement_time_ns => Some(previous),
                _ => Some(time.measurement_time_ns),
            };
            proof {
                assert(is_newest_stamp(
                    measurements@,
                    gps,
                    place + 1,
                    latest_measurement->0 as int,
                )) by {
                    if latest_measurement->0 == time.measurement_time_ns {
                        assert(is_from(measurements@, gps, place));
                    } else {
                        let i = choose|i: int|
                            0 <= i < place && #[trigger] is_from(measurements@, gps, i)
                                && measurements@[i].stamp() == old_latest->0;
                        assert(is_from(measurements@, gps, i));
                    }
                }
                last = place;
                assert(delivered_any(measurements@, gps, place + 1));
                assert(is_last_delivery(measurements@, gps, place + 1, last));
            }
        } else {
            proof {
                lemma_same_silence(measurements@, gps, place, maximum_gap as int);
                if delivered_any(measurements@, gps, place + 1) {
                    let i = choose|i: int|
                        0 <= i < place + 1 && #[trigger] is_from(measurements@, gps, i);
                    assert(i < place);
                }
                if last_arrival is Some {
                    let i = choose|i: int|
                        0 <= i < place && #[trigger] is_from(measurements@, gps, i)
                            && measurements@[i].stamp() == latest_measurement->0;
                    assert(is_from(measurements@, gps, i));
                }
            }
        }
        index = index + 1;
    }
    let (last_arrival_ns, latest_measurement_ns) = match (last_arrival, latest_measurement) {
        (Some(last_arrival_ns), Some(latest_measurement_ns)) => (
            last_arrival_ns,
            latest_measurement_ns,
        ),
        _ => {
            return SensorFreshness {
                final_receipt_age_ns: None,
                final_measurement_age_ns: None,
                maximum_receipt_gap_ns: None,
            };
        },
    };
    let now = measurements[measurements.len() - 1].time().arrival_time_ns;
    let receipt_age = elapsed_ns(now, last_arrival_ns);
    SensorFreshness {
        final_receipt_age_ns: Some(receipt_age),
        final_measurement_age_ns: Some(elapsed_ns(now, latest_measurement_ns)),
        maximum_receipt_gap_ns: Some(
            if maximum_gap >= receipt_age {
                maximum_gap
            } else {
                receipt_age
            },
        ),
    }
}

/// A delivery of another sensor changes no silence.
proof fn lemma_same_silence(
    measurements: Seq<EgoMeasurement>,
    gps: bool,
    count: int,
    gap: int,
)
    requires
        0 <= count < measurements.len(),
        !is_from(measurements, gps, count),
        is_longest_silence(measurements, gps, count, gap),
    ensures
        is_longest_silence(measurements, gps, count + 1, gap),
{
    if gap != 0 {
        let (i, j) = choose|i: int, j: int|
            j < count && #[trigger] are_successive(measurements, gps, i, j) && silence(
                measurements,
                i,
                j,
            ) == gap;
        assert(are_successive(measurements, gps, i, j));
    }
}

/// A further delivery of the sensor ends exactly one silence: the one since its last.
proof fn lemma_next_silence(
    measurements: Seq<EgoMeasurement>,
    gps: bool,
    count: int,
    had: bool,
    last: int,
    old_gap: int,
    new_gap: int,
)
    requires
        0 <= count < measurements.len(),
        is_from(measurements, gps, count),
        had <==> delivered_any(measurements, gps, count),
        had ==> is_last_delivery(measurements, gps, count, last),
        is_longest_silence(measurements, gps, count, old_gap),
        !had ==> new_gap == old_gap,
        had ==> new_gap == (if silence(measurements, last, count) > old_gap {
            silence(measurements, last, count)
        } else {
            old_gap
        }),
    ensures
        is_longest_silence(measurements, gps, count + 1, new_gap),
{
    assert forall|i: int, j: int|
        j < count + 1 && #[trigger] are_successive(measurements, gps, i, j) implies silence(
        measurements,
        i,
        j,
    ) <= new_gap by {
        if j == count {
            assert(is_from(measurements, gps, i));
            assert(delivered_any(measurements, gps, count));
            if i < last {
                assert(!is_from(measurements, gps, last));
            } else if i > last {
                assert(!is_from(measurements, gps, i));
            }
        }
    }
    if new_gap != 0 {
        if new_gap == old_gap {
            let (i, j) = choose|i: int, j: int|
                j < count && #[trigger] are_successive(measurements, gps, i, j) && silence(
                    measurements,
                    i,
                    j,
                ) == old_gap;
            assert(are_successive(measurements, gps, i, j));
        } else {
            assert(are_successive(measurements, gps, last, count));
        }
    }
}

/// Whether `age` is the longest time that a delivery took, or zero without deliveries.
pub open spec fn is_maximum_delivery_age(measurements: Seq<EgoMeasurement>, age: int) -> bool {
    if measurements.len() == 0 {
        age == 0
    } else {
        &&& forall|i: int|
            0 <= i < measurements.len() ==> #[trigger] delivery_age(measurements, i) <= age
        &&& exists|i: int|
            0 <= i < measurements.len() && #[trigger] delivery_age(measurements, i) == age
    }
}

/// How long the delivery at `index` took.
pub open spec fn delivery_age(measurements: Seq<EgoMeasurement>, index: int) -> int {
    saturated(measurements[index].arrival() - measurements[index].stamp())
}

/// The longest time that a delivery took, or zero without deliveries.
pub fn maximum_delivery_age(measurements: &[EgoMeasurement]) -> (age: i64)
    requires
        all_timed(measurements@),
    ensures
        is_maximum_delivery_age(measurements@, age as int),
{
    if measurements.len() == 0 {
        return 0;
    }
    let first = measurements[0].time();
    let mut oldest: i64 = elapsed_ns(first.arrival_time_ns, first.measurement_time_ns);
    let ghost mut holder: int = 0;
    assert(delivery_age(measurements@, 0) == oldest);
    let mut index: usize = 1;
    while index < measurements.len()
        invariant
            1 <= index <= measurements.len(),
            all_timed(measurements@),
            0 <= holder < index,
            delivery_age(measurements@, holder) == oldest,
            forall|i: int| 0 <= i < index ==> #[trigger] delivery_age(measurements@, i) <= oldest,
        decreases measurements.len() - index,
    {
        let time = measurements[index].time();
        let age = elapsed_ns(time.arrival_time_ns, time.measurement_time_ns);
        assert(delivery_age(measurements@, index as int) == age);
        if age > oldest {
            oldest = age;
            proof {
                holder = index as int;
            }
        }
        index = index + 1;
    }
    oldest
}

/// Whether `diagnostics` describes a run over `measurements`.
pub open spec fn is_timing(
    config: EgoEstimatorConfig,
    measurements: Seq<EgoMeasurement>,
    delayed: int,
    replayed: int,
    discarded: int,
    revised: int,
    diagnostics: TimingDiagnostics,
) -> bool {
    &&& diagnostics.timing_compensation == config.timing_compensation
    &&& diagnostics.history_duration_ns == config.history_duration_ns
    &&& diagnostics.received_measurements == measurements.len()
    &&& diagnostics.delayed_measurements == delayed
    &&& diagnostics.replayed_measurements == replayed
    &&& diagnostics.discarded_measurements == discarded
    &&& diagnostics.revised_estimates == revised
    &&& is_maximum_delivery_age(measurements, diagnostics.maximum_delivery_age_ns as int)
    &&& match diagnostics.freshness_observed_at_ns {
        Some(now) => measurements.len() > 0 && now == measurements.last().arrival(),
        None => measurements.len() == 0,
    }
    &&& is_freshness(measurements, true, diagnostics.gps_freshness)
    &&& is_freshness(measurements, false, diagnostics.imu_freshness)
}

/// Describes a run over `measurements` that treated late deliveries as counted.
pub fn timing(
    config: &EgoEstimatorConfig,
    measurements: &[EgoMeasurement],
    delayed_measurements: usize,
    replayed_measurements: usize,
    discarded_measurements: usize,
    revised_estimates: usize,
) -> (diagnostics: TimingDiagnostics)
    requires
        all_timed(measurements@),
    ensures
        is_timing(
            *config,
            measurements@,
            delayed_measurements as int,
            replayed_measurements as int,
            discarded_measurements as int,
            revised_estimates as int,
            diagnostics,
        ),
{
    TimingDiagnostics {
        timing_compensation: config.timing_compensation,
        history_duration_ns: config.history_duration_ns,
        received_measurements: measurements.len(),
        delayed_measurements,
        replayed_measurements,
        discarded_measurements,
        revised_estimates,
        maximum_delivery_age_ns: maximum_delivery_age(measurements),
        freshness_observed_at_ns: if measurements.len() == 0 {
            None
        } else {
            Some(measurements[measurements.len() - 1].time().arrival_time_ns)
        },
        gps_freshness: sensor_freshness(measurements, true),
        imu_freshness: sensor_freshness(measurements, false),
    }
}

} // verus!
