//! What a filter is asked to do with a stream of deliveries, and in which order.
//!
//! The order never depends on what the filter answers, so it is fixed before the filter runs.
use vstd::prelude::*;
use vstd::relations::{sorted_by, total_ordering};

use crate::scenario::EgoEstimatorConfig;

use super::measurement::{all_timed, EgoMeasurement};
use super::timing::{elapsed_ns, saturated};

verus! {

/// One request to the filter. `measurement` is the place of a delivery in the stream.
#[derive(Debug, Clone, Copy, PartialEq, Eq, Structural)]
pub enum FilterAction {
    /// Move the state on by an IMU sample.
    Propagate { measurement: usize },
    /// Correct the state by a GPS fix.
    UpdateGps { measurement: usize },
    /// Report the state at the time of an IMU sample.
    Estimate { measurement: usize, estimate_time_ns: i64, available_time_ns: i64 },
}

/// The requests to the filter, and how many deliveries were treated as late.
#[derive(Debug)]
pub struct Schedule {
    pub actions: Vec<FilterAction>,
    pub delayed_measurements: usize,
    pub replayed_measurements: usize,
    pub discarded_measurements: usize,
    pub revised_estimates: usize,
}

/// How many of the numbers below `limit` have the property.
pub open spec fn count_below(limit: int, property: spec_fn(int) -> bool) -> nat
    decreases limit,
{
    if limit <= 0 {
        0
    } else if property(limit - 1) {
        count_below(limit - 1, property) + 1
    } else {
        count_below(limit - 1, property)
    }
}

pub open spec fn larger_of(a: int, b: int) -> int {
    if a >= b {
        a
    } else {
        b
    }
}

// Deliveries in the order of arrival.

/// The measurement time of the last IMU sample among the first `count` deliveries.
pub open spec fn last_imu_stamp(measurements: Seq<EgoMeasurement>, count: int) -> Option<int>
    decreases count,
{
    if count <= 0 {
        None
    } else if measurements[count - 1].is_imu() {
        Some(measurements[count - 1].stamp())
    } else {
        last_imu_stamp(measurements, count - 1)
    }
}

/// Whether the delivery at `index` is older than the IMU sample delivered last before it.
pub open spec fn is_older_than_last_imu(measurements: Seq<EgoMeasurement>, index: int) -> bool {
    match last_imu_stamp(measurements, index) {
        Some(latest) => measurements[index].stamp() < latest,
        None => false,
    }
}

/// What the filter is asked to do at the delivery of `measurements[index]`.
pub open spec fn actions_at_arrival(measurements: Seq<EgoMeasurement>, index: int) -> Seq<
    FilterAction,
> {
    if measurements[index].is_imu() {
        seq![
            FilterAction::Propagate { measurement: index as usize },
            FilterAction::Estimate {
                measurement: index as usize,
                estimate_time_ns: measurements[index].stamp() as i64,
                available_time_ns: measurements[index].arrival() as i64,
            },
        ]
    } else {
        seq![FilterAction::UpdateGps { measurement: index as usize }]
    }
}

/// What the filter is asked to do with the first `count` deliveries as they arrive.
pub open spec fn arrival_actions(measurements: Seq<EgoMeasurement>, count: int) -> Seq<FilterAction>
    decreases count,
{
    if count <= 0 {
        Seq::empty()
    } else {
        arrival_actions(measurements, count - 1) + actions_at_arrival(measurements, count - 1)
    }
}

/// Whether `schedule` takes the deliveries as they arrive.
pub open spec fn is_arrival_schedule(
    measurements: Seq<EgoMeasurement>,
    schedule: Schedule,
) -> bool {
    &&& schedule.actions@ == arrival_actions(measurements, measurements.len() as int)
    &&& schedule.delayed_measurements == count_below(
        measurements.len() as int,
        |i: int| is_older_than_last_imu(measurements, i),
    )
    &&& schedule.replayed_measurements == 0
    &&& schedule.discarded_measurements == 0
    &&& schedule.revised_estimates == 0
}

/// Takes the deliveries as they arrive.
pub fn schedule_at_arrival(measurements: &[EgoMeasurement]) -> (schedule: Schedule)
    requires
        all_timed(measurements@),
    ensures
        is_arrival_schedule(measurements@, schedule),
{
    let mut actions: Vec<FilterAction> = Vec::new();
    let mut latest_imu_stamp_ns: Option<i64> = None;
    let mut delayed: usize = 0;
    let mut index: usize = 0;
    while index < measurements.len()
        invariant
            index <= measurements.len(),
            all_timed(measurements@),
            actions@ == arrival_actions(measurements@, index as int),
            last_imu_stamp(measurements@, index as int) == (match latest_imu_stamp_ns {
                Some(stamp) => Some(stamp as int),
                None => None,
            }),
            delayed <= index,
            delayed == count_below(
                index as int,
                |i: int| is_older_than_last_imu(measurements@, i),
            ),
        decreases measurements.len() - index,
    {
        let time = measurements[index].time();
        let ghost before = actions@;
        if let Some(latest) = latest_imu_stamp_ns {
            if time.measurement_time_ns < latest {
                delayed = delayed + 1;
            }
        }
        match &measurements[index] {
            EgoMeasurement::Imu(_) => {
                actions.push(FilterAction::Propagate { measurement: index });
                latest_imu_stamp_ns = Some(time.measurement_time_ns);
                actions.push(
                    FilterAction::Estimate {
                        measurement: index,
                        estimate_time_ns: time.measurement_time_ns,
                        available_time_ns: time.arrival_time_ns,
                    },
                );
            },
            EgoMeasurement::Gps(_) => {
                actions.push(FilterAction::UpdateGps { measurement: index });
            },
        }
        assert(actions@ =~= before + actions_at_arrival(measurements@, index as int));
        index = index + 1;
    }
    Schedule {
        actions,
        delayed_measurements: delayed,
        replayed_measurements: 0,
        discarded_measurements: 0,
        revised_estimates: 0,
    }
}

// Deliveries in the order of measurement.

/// The newest measurement time of an IMU sample among the first `count` deliveries.
pub open spec fn newest_imu_stamp(measurements: Seq<EgoMeasurement>, count: int) -> Option<int>
    decreases count,
{
    if count <= 0 {
        None
    } else if measurements[count - 1].is_imu() {
        match newest_imu_stamp(measurements, count - 1) {
            Some(newest) => Some(larger_of(newest, measurements[count - 1].stamp())),
            None => Some(measurements[count - 1].stamp()),
        }
    } else {
        newest_imu_stamp(measurements, count - 1)
    }
}

/// How far the delivery at `index` lies behind the newest IMU sample delivered before it; zero
/// without one.
pub open spec fn lag(measurements: Seq<EgoMeasurement>, index: int) -> int {
    match newest_imu_stamp(measurements, index) {
        Some(newest) => saturated(newest - measurements[index].stamp()),
        None => 0,
    }
}

/// Whether the delivery at `index` lies behind the newest IMU sample.
pub open spec fn lags(measurements: Seq<EgoMeasurement>, index: int) -> bool {
    lag(measurements, index) > 0
}

/// Whether the delivery at `index` is a GPS fix from before the history that is kept.
pub open spec fn is_discarded(
    history_duration_ns: int,
    measurements: Seq<EgoMeasurement>,
    index: int,
) -> bool {
    measurements[index].is_gps() && lag(measurements, index) > history_duration_ns
}

/// Whether the delivery at `index` lags and is used all the same.
pub open spec fn is_replayed(
    history_duration_ns: int,
    measurements: Seq<EgoMeasurement>,
    index: int,
) -> bool {
    lags(measurements, index) && !is_discarded(history_duration_ns, measurements, index)
}

/// The deliveries among the first `count` that are used.
pub open spec fn accepted(
    history_duration_ns: int,
    measurements: Seq<EgoMeasurement>,
    count: int,
) -> Seq<int>
    decreases count,
{
    if count <= 0 {
        Seq::empty()
    } else if is_discarded(history_duration_ns, measurements, count - 1) {
        accepted(history_duration_ns, measurements, count - 1)
    } else {
        accepted(history_duration_ns, measurements, count - 1).push(count - 1)
    }
}

/// At one measurement time IMU samples go before GPS fixes.
pub open spec fn spec_measurement_priority(measurement: EgoMeasurement) -> u8 {
    if measurement.is_imu() {
        10
    } else {
        20
    }
}

pub fn measurement_priority(measurement: &EgoMeasurement) -> (priority: u8)
    ensures
        priority == spec_measurement_priority(*measurement),
{
    match measurement {
        EgoMeasurement::Imu(_) => 10,
        EgoMeasurement::Gps(_) => 20,
    }
}

/// Whether the delivery at `i` is used no later than the one at `j`: by measurement time, by
/// priority, by arrival, and in the end by the place in the stream.
pub open spec fn goes_before(measurements: Seq<EgoMeasurement>, i: int, j: int) -> bool {
    let (a, b) = (measurements[i], measurements[j]);
    let (first, second) = (spec_measurement_priority(a), spec_measurement_priority(b));
    if a.stamp() != b.stamp() {
        a.stamp() < b.stamp()
    } else if first != second {
        first < second
    } else if a.arrival() != b.arrival() {
        a.arrival() < b.arrival()
    } else {
        i <= j
    }
}

/// The deliveries that are used, in the order of measurement.
pub open spec fn measurement_order(
    history_duration_ns: int,
    measurements: Seq<EgoMeasurement>,
) -> Seq<int> {
    accepted(history_duration_ns, measurements, measurements.len() as int).sort_by(
        |i: int, j: int| goes_before(measurements, i, j),
    )
}

/// The last IMU sample among those deliveries up to `order[place]` that share its measurement
/// time.
pub open spec fn group_imu(
    measurements: Seq<EgoMeasurement>,
    order: Seq<int>,
    place: int,
) -> Option<int>
    decreases place,
{
    if place < 0 {
        None
    } else if measurements[order[place]].is_imu() {
        Some(order[place])
    } else if place > 0 && measurements[order[place - 1]].stamp()
        == measurements[order[place]].stamp() {
        group_imu(measurements, order, place - 1)
    } else {
        None
    }
}

/// Whether no delivery after `order[place]` shares its measurement time.
pub open spec fn ends_group(
    measurements: Seq<EgoMeasurement>,
    order: Seq<int>,
    place: int,
) -> bool {
    place + 1 == order.len() || measurements[order[place + 1]].stamp()
        != measurements[order[place]].stamp()
}

/// The latest arrival among an IMU sample and those of the first `count` deliveries in `order`
/// that are GPS fixes measured no later than it.
pub open spec fn latest_arrival(
    measurements: Seq<EgoMeasurement>,
    order: Seq<int>,
    imu: int,
    count: int,
) -> int
    decreases count,
{
    if count <= 0 {
        measurements[imu].arrival()
    } else {
        let so_far = latest_arrival(measurements, order, imu, count - 1);
        let other = measurements[order[count - 1]];
        if other.is_gps() && other.stamp() <= measurements[imu].stamp() {
            larger_of(so_far, other.arrival())
        } else {
            so_far
        }
    }
}

/// When everything that bears on the estimate at an IMU sample has arrived.
pub open spec fn availability(
    measurements: Seq<EgoMeasurement>,
    order: Seq<int>,
    imu: int,
) -> int {
    latest_arrival(measurements, order, imu, order.len() as int)
}

/// Whether an estimate is due behind `order[place]`.
pub open spec fn is_estimated(
    measurements: Seq<EgoMeasurement>,
    order: Seq<int>,
    place: int,
) -> bool {
    ends_group(measurements, order, place) && group_imu(measurements, order, place) is Some
}

/// Whether the estimate due behind `order[place]` waits for a GPS fix that arrives after the IMU
/// sample.
pub open spec fn is_revised(
    measurements: Seq<EgoMeasurement>,
    order: Seq<int>,
    place: int,
) -> bool {
    is_estimated(measurements, order, place) && {
        let imu = group_imu(measurements, order, place)->0;
        availability(measurements, order, imu) > measurements[imu].arrival()
    }
}

/// What the filter is asked to do with the delivery at `index` itself.
pub open spec fn use_of(measurements: Seq<EgoMeasurement>, index: int) -> FilterAction {
    if measurements[index].is_imu() {
        FilterAction::Propagate { measurement: index as usize }
    } else {
        FilterAction::UpdateGps { measurement: index as usize }
    }
}

/// The report of the state at an IMU sample.
pub open spec fn estimate_at(
    measurements: Seq<EgoMeasurement>,
    order: Seq<int>,
    imu: int,
) -> FilterAction {
    FilterAction::Estimate {
        measurement: imu as usize,
        estimate_time_ns: measurements[imu].stamp() as i64,
        available_time_ns: availability(measurements, order, imu) as i64,
    }
}

/// What the filter is asked to do at `order[place]`: use the delivery, and report the state once
/// the last delivery of its measurement time has been used.
pub open spec fn actions_in_order(
    measurements: Seq<EgoMeasurement>,
    order: Seq<int>,
    place: int,
) -> Seq<FilterAction> {
    if is_estimated(measurements, order, place) {
        seq![
            use_of(measurements, order[place]),
            estimate_at(measurements, order, group_imu(measurements, order, place)->0),
        ]
    } else {
        seq![use_of(measurements, order[place])]
    }
}

/// What the filter is asked to do with the first `count` deliveries in `order`.
pub open spec fn ordered_actions(
    measurements: Seq<EgoMeasurement>,
    order: Seq<int>,
    count: int,
) -> Seq<FilterAction>
    decreases count,
{
    if count <= 0 {
        Seq::empty()
    } else {
        ordered_actions(measurements, order, count - 1) + actions_in_order(
            measurements,
            order,
            count - 1,
        )
    }
}

/// Whether `schedule` takes the deliveries in the order of measurement.
pub open spec fn is_measurement_time_schedule(
    history_duration_ns: int,
    measurements: Seq<EgoMeasurement>,
    schedule: Schedule,
) -> bool {
    let count = measurements.len() as int;
    let order = measurement_order(history_duration_ns, measurements);
    &&& schedule.actions@ == ordered_actions(measurements, order, order.len() as int)
    &&& schedule.delayed_measurements == count_below(count, |i: int| lags(measurements, i))
    &&& schedule.replayed_measurements == count_below(
        count,
        |i: int| is_replayed(history_duration_ns, measurements, i),
    )
    &&& schedule.discarded_measurements == count_below(
        count,
        |i: int| is_discarded(history_duration_ns, measurements, i),
    )
    &&& schedule.revised_estimates == count_below(
        order.len() as int,
        |place: int| is_revised(measurements, order, place),
    )
}

/// Places as spec numbers.
pub open spec fn places(order: Seq<usize>) -> Seq<int> {
    order.map_values(|place: usize| place as int)
}

/// Whether every place lies in a stream of `count` deliveries.
pub open spec fn within(order: Seq<usize>, count: int) -> bool {
    forall|i: int| 0 <= i < order.len() ==> (#[trigger] order[i]) < count
}

/// Of two deliveries one goes before the other, and only one unless they are the same.
pub proof fn lemma_goes_before_is_total(measurements: Seq<EgoMeasurement>)
    ensures
        total_ordering(|i: int, j: int| goes_before(measurements, i, j)),
{
}

fn precedes(measurements: &[EgoMeasurement], i: usize, j: usize) -> (answer: bool)
    requires
        all_timed(measurements@),
        i < measurements.len(),
        j < measurements.len(),
    ensures
        answer == goes_before(measurements@, i as int, j as int),
{
    let a = measurements[i].time();
    let b = measurements[j].time();
    let first = measurement_priority(&measurements[i]);
    let second = measurement_priority(&measurements[j]);
    if a.measurement_time_ns != b.measurement_time_ns {
        a.measurement_time_ns < b.measurement_time_ns
    } else if first != second {
        first < second
    } else if a.arrival_time_ns != b.arrival_time_ns {
        a.arrival_time_ns < b.arrival_time_ns
    } else {
        i <= j
    }
}

/// Whether `order` holds the places in `pool`, each as often, in the order of measurement.
pub open spec fn is_ordered(
    measurements: Seq<EgoMeasurement>,
    order: Seq<usize>,
    pool: Seq<int>,
) -> bool {
    &&& within(order, measurements.len() as int)
    &&& sorted_by(places(order), |i: int, j: int| goes_before(measurements, i, j))
    &&& places(order).to_multiset() == pool.to_multiset()
}

/// Adds a place where it belongs in the order of measurement.
fn insert_in_order(measurements: &[EgoMeasurement], order: &mut Vec<usize>, index: usize)
    requires
        all_timed(measurements@),
        index < measurements.len(),
        within(old(order)@, measurements.len() as int),
        sorted_by(
            places(old(order)@),
            |i: int, j: int| goes_before(measurements@, i, j),
        ),
    ensures
        within(final(order)@, measurements.len() as int),
        sorted_by(
            places(final(order)@),
            |i: int, j: int| goes_before(measurements@, i, j),
        ),
        places(final(order)@).to_multiset() == places(old(order)@).to_multiset().insert(
            index as int,
        ),
{
    let ghost ranked = places(order@);
    let ghost leq = |i: int, j: int| goes_before(measurements@, i, j);
    let mut place: usize = order.len();
    while place > 0 && !precedes(measurements, order[place - 1], index)
        invariant
            all_timed(measurements@),
            index < measurements.len(),
            place <= order.len(),
            order@ == old(order)@,
            within(order@, measurements.len() as int),
            forall|p: int|
                place <= p < order.len() ==> goes_before(
                    measurements@,
                    index as int,
                    (#[trigger] order@[p]) as int,
                ),
        decreases place,
    {
        place = place - 1;
    }
    order.insert(place, index);
    proof {
        let added = ranked.insert(place as int, index as int);
        assert(places(order@) =~= added);
        assert forall|i: int, j: int| 0 <= i < j < added.len() implies #[trigger] leq(
            added[i],
            added[j],
        ) by {
            assert(leq(added[i], added[j]) == goes_before(measurements@, added[i], added[j]));
            if j < place {
                assert(leq(ranked[i], ranked[j]));
            } else if i > place {
                assert(leq(ranked[i - 1], ranked[j - 1]));
            } else if i == place {
                assert(old(order)@[j - 1] == ranked[j - 1]);
            } else if j == place {
                assert(leq(ranked[place - 1], index as int));
                if i < place - 1 {
                    assert(leq(ranked[i], ranked[place - 1]));
                }
            } else {
                assert(leq(ranked[i], ranked[j - 1]));
            }
        }
        vstd::seq_lib::to_multiset_insert(ranked, place as int, index as int);
    }
}

/// The deliveries that are used, in the order of measurement, and how many of all lagged.
struct Selection {
    order: Vec<usize>,
    delayed: usize,
    replayed: usize,
    discarded: usize,
}

/// Picks the deliveries that are used and puts them in the order of measurement.
fn select(history_duration_ns: i64, measurements: &[EgoMeasurement]) -> (selection: Selection)
    requires
        all_timed(measurements@),
    ensures
        within(selection.order@, measurements.len() as int),
        places(selection.order@) == measurement_order(history_duration_ns as int, measurements@),
        selection.delayed == count_below(
            measurements.len() as int,
            |i: int| lags(measurements@, i),
        ),
        selection.replayed == count_below(
            measurements.len() as int,
            |i: int| is_replayed(history_duration_ns as int, measurements@, i),
        ),
        selection.discarded == count_below(
            measurements.len() as int,
            |i: int| is_discarded(history_duration_ns as int, measurements@, i),
        ),
{
    let mut order: Vec<usize> = Vec::new();
    let mut newest: Option<i64> = None;
    let mut delayed: usize = 0;
    let mut replayed: usize = 0;
    let mut discarded: usize = 0;
    let mut index: usize = 0;
    let ghost history = history_duration_ns as int;
    proof {
        assert(places(order@) =~= Seq::<int>::empty());
    }
    while index < measurements.len()
        invariant
            index <= measurements.len(),
            all_timed(measurements@),
            history == history_duration_ns,
            is_ordered(measurements@, order@, accepted(history, measurements@, index as int)),
            newest_imu_stamp(measurements@, index as int) == (match newest {
                Some(stamp) => Some(stamp as int),
                None => None,
            }),
            delayed <= index,
            replayed <= index,
            discarded <= index,
            delayed == count_below(index as int, |i: int| lags(measurements@, i)),
            replayed == count_below(
                index as int,
                |i: int| is_replayed(history, measurements@, i),
            ),
            discarded == count_below(
                index as int,
                |i: int| is_discarded(history, measurements@, i),
            ),
        decreases measurements.len() - index,
    {
        let time = measurements[index].time();
        let age: i64 = match newest {
            Some(newest_ns) => elapsed_ns(newest_ns, time.measurement_time_ns),
            None => 0,
        };
        assert(age == lag(measurements@, index as int));
        if age > 0 {
            delayed = delayed + 1;
        }
        let is_gps = matches!(&measurements[index], EgoMeasurement::Gps(_));
        if is_gps && age > history_duration_ns {
            discarded = discarded + 1;
        } else {
            if age > 0 {
                replayed = replayed + 1;
            }
            insert_in_order(measurements, &mut order, index);
            proof {
                vstd::seq_lib::to_multiset_build(
                    accepted(history, measurements@, index as int),
                    index as int,
                );
            }
        }
        if !is_gps {
            newest = match newest {
                Some(newest_ns) if newest_ns >= time.measurement_time_ns => Some(newest_ns),
                _ => Some(time.measurement_time_ns),
            };
        }
        index = index + 1;
    }
    proof {
        let leq = |i: int, j: int| goes_before(measurements@, i, j);
        let pool = accepted(history, measurements@, measurements.len() as int);
        lemma_goes_before_is_total(measurements@);
        pool.lemma_sort_by_ensures(leq);
        vstd::seq_lib::lemma_sorted_unique(places(order@), pool.sort_by(leq), leq);
    }
    Selection { order, delayed, replayed, discarded }
}

/// When everything that bears on the estimate at an IMU sample has arrived.
fn find_availability(measurements: &[EgoMeasurement], order: &[usize], imu: usize) -> (time: i64)
    requires
        all_timed(measurements@),
        within(order@, measurements.len() as int),
        imu < measurements.len(),
    ensures
        time == availability(measurements@, places(order@), imu as int),
        time >= measurements@[imu as int].arrival(),
{
    let imu_time = measurements[imu].time();
    let mut latest: i64 = imu_time.arrival_time_ns;
    let mut place: usize = 0;
    while place < order.len()
        invariant
            all_timed(measurements@),
            within(order@, measurements.len() as int),
            imu < measurements.len(),
            Some(*imu_time) == measurements@[imu as int].optional_time(),
            place <= order.len(),
            latest == latest_arrival(measurements@, places(order@), imu as int, place as int),
            latest >= measurements@[imu as int].arrival(),
        decreases order.len() - place,
    {
        let other = &measurements[order[place]];
        let time = other.time();
        assert(places(order@)[place as int] == order@[place as int]);
        if matches!(other, EgoMeasurement::Gps(_)) && time.measurement_time_ns
            <= imu_time.measurement_time_ns && time.arrival_time_ns > latest {
            latest = time.arrival_time_ns;
        }
        place = place + 1;
    }
    latest
}

/// Takes the deliveries in the order of measurement, as far as their history is kept.
pub fn schedule_at_measurement_time(
    config: &EgoEstimatorConfig,
    measurements: &[EgoMeasurement],
) -> (schedule: Schedule)
    requires
        all_timed(measurements@),
    ensures
        is_measurement_time_schedule(
            config.history_duration_ns as int,
            measurements@,
            schedule,
        ),
{
    let selection = select(config.history_duration_ns, measurements);
    let order = selection.order;
    let ghost ranked = places(order@);
    let mut actions: Vec<FilterAction> = Vec::new();
    let mut revised: usize = 0;
    let mut emission: Option<usize> = None;
    let mut place: usize = 0;
    while place < order.len()
        invariant
            all_timed(measurements@),
            within(order@, measurements.len() as int),
            ranked == places(order@),
            place <= order.len(),
            emission is Some ==> emission->0 < measurements.len(),
            actions@ == ordered_actions(measurements@, ranked, place as int),
            place > 0 ==> group_imu(measurements@, ranked, place - 1) == (match emission {
                Some(imu) => Some(imu as int),
                None => None,
            }),
            emission is Some ==> place > 0 && measurements@[emission->0 as int].stamp()
                == measurements@[ranked[place - 1]].stamp(),
            revised <= place,
            revised == count_below(
                place as int,
                |p: int| is_revised(measurements@, ranked, p),
            ),
        decreases order.len() - place,
    {
        let ghost before = actions@;
        let index = order[place];
        let stamp = measurements[index].time().measurement_time_ns;
        assert(ranked[place as int] == index);
        if place > 0 {
            assert(ranked[place - 1] == order@[place - 1]);
            if measurements[order[place - 1]].time().measurement_time_ns != stamp {
                emission = None;
            }
        }
        match &measurements[index] {
            EgoMeasurement::Imu(_) => {
                actions.push(FilterAction::Propagate { measurement: index });
                emission = Some(index);
            },
            EgoMeasurement::Gps(_) => {
                actions.push(FilterAction::UpdateGps { measurement: index });
            },
        }
        let is_last = place + 1 == order.len() || measurements[order[place
            + 1]].time().measurement_time_ns != stamp;
        assert(is_last == ends_group(measurements@, ranked, place as int)) by {
            if place + 1 < order.len() {
                assert(ranked[place + 1] == order@[place + 1]);
            }
        }
        if is_last {
            if let Some(imu) = emission {
                let available = find_availability(measurements, order.as_slice(), imu);
                if available > measurements[imu].time().arrival_time_ns {
                    revised = revised + 1;
                }
                actions.push(
                    FilterAction::Estimate {
                        measurement: imu,
                        estimate_time_ns: stamp,
                        available_time_ns: available,
                    },
                );
            }
        }
        assert(actions@ =~= before + actions_in_order(measurements@, ranked, place as int));
        place = place + 1;
    }
    Schedule {
        actions,
        delayed_measurements: selection.delayed,
        replayed_measurements: selection.replayed,
        discarded_measurements: selection.discarded,
        revised_estimates: revised,
    }
}

} // verus!
