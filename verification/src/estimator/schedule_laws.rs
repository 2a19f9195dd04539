//! What holds of every schedule.
use vstd::prelude::*;
use vstd::relations::{sorted_by, total_ordering};

use crate::scenario::EgoEstimatorConfig;

use super::measurement::{delivered_in_order, is_orderly, EgoMeasurement};
use super::run::{
    delayed_count, discarded_count, replayed_count, revised_count, scheduled_actions, subject,
};
use super::schedule::{
    accepted, actions_at_arrival, actions_in_order, arrival_actions, availability, count_below,
    ends_group, estimate_at, goes_before, group_imu, is_discarded, is_estimated, is_replayed, lags,
    latest_arrival, lemma_goes_before_is_total, measurement_order, ordered_actions,
    spec_measurement_priority, use_of, FilterAction,
};

verus! {

/// Which deliveries are accepted, and how many.
pub proof fn lemma_accepted(history: int, measurements: Seq<EgoMeasurement>, count: int)
    requires
        0 <= count,
    ensures
        accepted(history, measurements, count).len() + count_below(
            count,
            |i: int| is_discarded(history, measurements, i),
        ) == count,
        forall|i: int|
            accepted(history, measurements, count).contains(i) <==> (0 <= i < count
                && !#[trigger] is_discarded(history, measurements, i)),
        accepted(history, measurements, count).no_duplicates(),
    decreases count,
{
    if count > 0 {
        lemma_accepted(history, measurements, count - 1);
        let before = accepted(history, measurements, count - 1);
        let now = accepted(history, measurements, count);
        if !is_discarded(history, measurements, count - 1) {
            assert(now == before.push(count - 1));
            assert(!before.contains(count - 1)) by {
                assert(is_discarded(history, measurements, count - 1)
                    || !is_discarded(history, measurements, count - 1));
            }
            assert forall|i: int| #[trigger] now.contains(i) <==> before.contains(i) || i == count
                - 1 by {
                if i == count - 1 {
                    assert(now[now.len() - 1] == i);
                } else if before.contains(i) {
                    let k = choose|k: int| 0 <= k < before.len() && before[k] == i;
                    assert(now[k] == i);
                } else if now.contains(i) {
                    let k = choose|k: int| 0 <= k < now.len() && now[k] == i;
                    assert(before[k] == i);
                }
            }
        }
    }
}

/// The order of measurement holds each accepted delivery once and nothing else.
pub proof fn lemma_measurement_order(history: int, measurements: Seq<EgoMeasurement>)
    ensures
        ({
            let order = measurement_order(history, measurements);
            let count = measurements.len() as int;
            &&& order.no_duplicates()
            &&& forall|i: int|
                order.contains(i) <==> (0 <= i < count && !#[trigger] is_discarded(
                    history,
                    measurements,
                    i,
                ))
            &&& order.len() + count_below(count, |i: int| is_discarded(history, measurements, i))
                == count
            &&& forall|p: int, q: int|
                0 <= p < q < order.len() ==> #[trigger] goes_before(
                    measurements,
                    order[p],
                    order[q],
                )
            &&& forall|p: int| 0 <= p < order.len() ==> 0 <= #[trigger] order[p] < count
        }),
{
    broadcast use vstd::seq_lib::group_to_multiset_ensures;

    let count = measurements.len() as int;
    let pool = accepted(history, measurements, count);
    let order = measurement_order(history, measurements);
    let leq = |i: int, j: int| goes_before(measurements, i, j);
    lemma_accepted(history, measurements, count);
    lemma_goes_before_is_total(measurements);
    pool.lemma_sort_by_ensures(leq);
    assert(pool.to_multiset() == order.to_multiset());
    assert forall|i: int| order.contains(i) <==> pool.contains(i) by {
        assert(order.to_multiset().count(i) == pool.to_multiset().count(i));
    }
    pool.lemma_multiset_has_no_duplicates();
    order.lemma_multiset_has_no_duplicates_conv();
    assert forall|p: int, q: int| 0 <= p < q < order.len() implies #[trigger] goes_before(
        measurements,
        order[p],
        order[q],
    ) by {
        assert(leq(order[p], order[q]));
    }
    assert forall|p: int| 0 <= p < order.len() implies 0 <= #[trigger] order[p] < count by {
        assert(order.contains(order[p]));
        assert(!is_discarded(history, measurements, order[p]));
    }
    assert(order.to_multiset().len() == pool.to_multiset().len());
}

/// The IMU sample of a group is one, was accepted, and shares the group's measurement time.
pub proof fn lemma_group_imu(measurements: Seq<EgoMeasurement>, order: Seq<int>, place: int)
    requires
        0 <= place < order.len(),
        group_imu(measurements, order, place) is Some,
    ensures
        ({
            let imu = group_imu(measurements, order, place)->0;
            &&& measurements[imu].is_imu()
            &&& measurements[imu].stamp() == measurements[order[place]].stamp()
            &&& exists|p: int| 0 <= p <= place && #[trigger] order[p] == imu
        }),
    decreases place,
{
    if measurements[order[place]].is_imu() {
        assert(order[place] == group_imu(measurements, order, place)->0);
    } else {
        lemma_group_imu(measurements, order, place - 1);
    }
}

/// A time of availability is the arrival of the IMU sample or of a GPS fix that bears on it, and
/// no earlier than any of them.
pub proof fn lemma_latest_arrival(
    measurements: Seq<EgoMeasurement>,
    order: Seq<int>,
    imu: int,
    count: int,
)
    requires
        0 <= count <= order.len(),
    ensures
        ({
            let latest = latest_arrival(measurements, order, imu, count);
            &&& latest >= measurements[imu].arrival()
            &&& latest as i64 == latest
            &&& forall|p: int|
                0 <= p < count && measurements[#[trigger] order[p]].is_gps()
                    && measurements[order[p]].stamp() <= measurements[imu].stamp() ==> latest
                    >= measurements[order[p]].arrival()
            &&& latest > measurements[imu].arrival() ==> exists|p: int|
                0 <= p < count && measurements[#[trigger] order[p]].is_gps()
                    && measurements[order[p]].stamp() <= measurements[imu].stamp() && latest
                    == measurements[order[p]].arrival()
        }),
    decreases count,
{
    if count > 0 {
        lemma_latest_arrival(measurements, order, imu, count - 1);
        let latest = latest_arrival(measurements, order, imu, count);
        let before = latest_arrival(measurements, order, imu, count - 1);
        if latest > before {
            assert(measurements[order[count - 1]].is_gps());
        } else if latest > measurements[imu].arrival() {
            let p = choose|p: int|
                0 <= p < count - 1 && measurements[#[trigger] order[p]].is_gps()
                    && measurements[order[p]].stamp() <= measurements[imu].stamp() && before
                    == measurements[order[p]].arrival();
            assert(measurements[order[p]].is_gps());
        }
    }
}

/// Whether `action` is asked at the delivery `order[place]`.
pub open spec fn is_asked_at(
    measurements: Seq<EgoMeasurement>,
    order: Seq<int>,
    place: int,
    action: FilterAction,
) -> bool {
    actions_in_order(measurements, order, place).contains(action)
}

/// Every request in the order of measurement is asked at some place.
pub proof fn lemma_asked_somewhere(
    measurements: Seq<EgoMeasurement>,
    order: Seq<int>,
    count: int,
    index: int,
) -> (place: int)
    requires
        0 <= count <= order.len(),
        0 <= index < ordered_actions(measurements, order, count).len(),
    ensures
        0 <= place < count,
        is_asked_at(
            measurements,
            order,
            place,
            ordered_actions(measurements, order, count)[index],
        ),
    decreases count,
{
    let before = ordered_actions(measurements, order, count - 1);
    let now = actions_in_order(measurements, order, count - 1);
    if index < before.len() {
        lemma_asked_somewhere(measurements, order, count - 1, index)
    } else {
        assert(now[index - before.len()] == ordered_actions(measurements, order, count)[index]);
        count - 1
    }
}

/// A report that is asked at a place is about the IMU sample there.
pub proof fn lemma_estimate_asked_at(
    measurements: Seq<EgoMeasurement>,
    order: Seq<int>,
    place: int,
    action: FilterAction,
)
    requires
        0 <= place < order.len(),
        is_asked_at(measurements, order, place, action),
        action is Estimate,
    ensures
        is_estimated(measurements, order, place),
        action == estimate_at(measurements, order, group_imu(measurements, order, place)->0),
        action->estimate_time_ns == measurements[order[place]].stamp(),
{
    let asked = actions_in_order(measurements, order, place);
    let k = choose|k: int| 0 <= k < asked.len() && asked[k] == action;
    assert(asked[0] == use_of(measurements, order[place]));
    lemma_group_imu(measurements, order, place);
}

proof fn lemma_arrival_subjects(measurements: Seq<EgoMeasurement>, count: int, index: int)
    requires
        measurements.len() <= usize::MAX,
        0 <= count <= measurements.len(),
        0 <= index < arrival_actions(measurements, count).len(),
    ensures
        0 <= subject(arrival_actions(measurements, count)[index]) < count,
    decreases count,
{
    let before = arrival_actions(measurements, count - 1);
    let now = actions_at_arrival(measurements, count - 1);
    if index < before.len() {
        lemma_arrival_subjects(measurements, count - 1, index);
    } else {
        assert(now[index - before.len()] == arrival_actions(measurements, count)[index]);
    }
}

/// Every request to the filter is about a delivery of the stream.
pub proof fn law_requests_are_about_deliveries(
    config: EgoEstimatorConfig,
    measurements: Seq<EgoMeasurement>,
    index: int,
)
    requires
        measurements.len() <= usize::MAX,
        0 <= index < scheduled_actions(config, measurements).len(),
    ensures
        0 <= subject(scheduled_actions(config, measurements)[index]) < measurements.len(),
{
    if config.timing_compensation {
        let history = config.history_duration_ns as int;
        let order = measurement_order(history, measurements);
        let action = scheduled_actions(config, measurements)[index];
        lemma_measurement_order(history, measurements);
        let place = lemma_asked_somewhere(measurements, order, order.len() as int, index);
        let asked = actions_in_order(measurements, order, place);
        let k = choose|k: int| 0 <= k < asked.len() && asked[k] == action;
        assert(0 <= order[place] < measurements.len());
        if k == 1 {
            lemma_group_imu(measurements, order, place);
        }
    } else {
        lemma_arrival_subjects(measurements, measurements.len() as int, index);
    }
}

/// IMU samples are never left out, however late they come.
pub proof fn law_imu_samples_are_kept(
    history: int,
    measurements: Seq<EgoMeasurement>,
    index: int,
)
    requires
        0 <= index < measurements.len(),
        measurements[index].is_imu(),
    ensures
        !is_discarded(history, measurements, index),
        measurement_order(history, measurements).contains(index),
{
    lemma_measurement_order(history, measurements);
    assert(!is_discarded(history, measurements, index));
}

/// Every delivery is either used exactly once or left out.
pub proof fn law_each_delivery_is_used_once_or_discarded(
    history: int,
    measurements: Seq<EgoMeasurement>,
)
    ensures
        ({
            let order = measurement_order(history, measurements);
            let count = measurements.len() as int;
            &&& order.no_duplicates()
            &&& forall|i: int|
                order.contains(i) <==> (0 <= i < count && !#[trigger] is_discarded(
                    history,
                    measurements,
                    i,
                ))
            &&& order.len() + count_below(count, |i: int| is_discarded(history, measurements, i))
                == count
        }),
{
    lemma_measurement_order(history, measurements);
}

/// Deliveries are used in the order in which they were measured, and IMU samples before the GPS
/// fixes of the same time.
pub proof fn law_deliveries_are_used_in_measurement_order(
    history: int,
    measurements: Seq<EgoMeasurement>,
    earlier: int,
    later: int,
)
    requires
        0 <= earlier < later < measurement_order(history, measurements).len(),
    ensures
        ({
            let order = measurement_order(history, measurements);
            let (a, b) = (measurements[order[earlier]], measurements[order[later]]);
            &&& a.stamp() <= b.stamp()
            &&& a.stamp() == b.stamp() && a.is_gps() ==> b.is_gps()
        }),
{
    lemma_measurement_order(history, measurements);
    let order = measurement_order(history, measurements);
    assert(goes_before(measurements, order[earlier], order[later]));
}

/// Where delays are compensated, estimates come one for each measurement time, in ascending
/// order.
pub proof fn law_compensated_estimates_ascend(
    config: EgoEstimatorConfig,
    measurements: Seq<EgoMeasurement>,
    earlier: int,
    later: int,
)
    requires
        config.timing_compensation,
        0 <= earlier < later < scheduled_actions(config, measurements).len(),
        scheduled_actions(config, measurements)[earlier] is Estimate,
        scheduled_actions(config, measurements)[later] is Estimate,
    ensures
        scheduled_actions(config, measurements)[earlier]->estimate_time_ns < scheduled_actions(
            config,
            measurements,
        )[later]->estimate_time_ns,
{
    let history = config.history_duration_ns as int;
    let order = measurement_order(history, measurements);
    lemma_measurement_order(history, measurements);
    lemma_estimates_ascend(history, measurements, order.len() as int, earlier, later);
}

proof fn lemma_estimates_ascend(
    history: int,
    measurements: Seq<EgoMeasurement>,
    count: int,
    earlier: int,
    later: int,
)
    requires
        ({
            let order = measurement_order(history, measurements);
            let actions = ordered_actions(measurements, order, count);
            &&& 0 <= count <= order.len()
            &&& 0 <= earlier < later < actions.len()
            &&& actions[earlier] is Estimate
            &&& actions[later] is Estimate
        }),
    ensures
        ({
            let order = measurement_order(history, measurements);
            let actions = ordered_actions(measurements, order, count);
            actions[earlier]->estimate_time_ns < actions[later]->estimate_time_ns
        }),
    decreases count,
{
    let order = measurement_order(history, measurements);
    let actions = ordered_actions(measurements, order, count);
    let before = ordered_actions(measurements, order, count - 1);
    let now = actions_in_order(measurements, order, count - 1);
    if later < before.len() {
        lemma_estimates_ascend(history, measurements, count - 1, earlier, later);
    } else {
        assert(now[0] == use_of(measurements, order[count - 1]));
        assert(actions[before.len() as int] == now[0]);
        assert(now[later - before.len()] == actions[later]);
        assert(is_asked_at(measurements, order, count - 1, actions[later]));
        lemma_estimate_asked_at(measurements, order, count - 1, actions[later]);
        assert(earlier < before.len());
        let place = lemma_asked_somewhere(measurements, order, count - 1, earlier);
        lemma_estimate_asked_at(measurements, order, place, actions[earlier]);
        lemma_measurement_order(history, measurements);
        assert(goes_before(measurements, order[place], order[place + 1]));
        if place + 1 < count - 1 {
            assert(goes_before(measurements, order[place + 1], order[count - 1]));
        }
    }
}

/// No estimate is available before the time that it is about, nor before the arrival of anything
/// that bears on it: its IMU sample and, where delays are compensated, every GPS fix that is used
/// and was measured no later.
pub proof fn law_estimates_wait_for_what_they_use(
    config: EgoEstimatorConfig,
    measurements: Seq<EgoMeasurement>,
    index: int,
)
    requires
        measurements.len() <= usize::MAX,
        delivered_in_order(measurements, measurements.len() as int),
        0 <= index < scheduled_actions(config, measurements).len(),
        scheduled_actions(config, measurements)[index] is Estimate,
    ensures
        ({
            let action = scheduled_actions(config, measurements)[index];
            let imu = action->Estimate_measurement;
            &&& measurements[imu as int].is_imu()
            &&& action->estimate_time_ns == measurements[imu as int].stamp()
            &&& action->available_time_ns >= action->estimate_time_ns
            &&& action->available_time_ns >= measurements[imu as int].arrival()
            &&& config.timing_compensation ==> forall|i: int|
                0 <= i < measurements.len() && measurements[i].is_gps()
                    && measurements[i].stamp() <= action->estimate_time_ns
                    && !#[trigger] is_discarded(
                    config.history_duration_ns as int,
                    measurements,
                    i,
                ) ==> action->available_time_ns >= measurements[i].arrival()
        }),
{
    let action = scheduled_actions(config, measurements)[index];
    if config.timing_compensation {
        let history = config.history_duration_ns as int;
        let order = measurement_order(history, measurements);
        lemma_measurement_order(history, measurements);
        let place = lemma_asked_somewhere(measurements, order, order.len() as int, index);
        lemma_estimate_asked_at(measurements, order, place, action);
        lemma_group_imu(measurements, order, place);
        let imu = group_imu(measurements, order, place)->0;
        assert(0 <= imu < measurements.len());
        lemma_latest_arrival(measurements, order, imu, order.len() as int);
        assert(is_orderly(measurements, imu));
        assert forall|i: int|
            0 <= i < measurements.len() && measurements[i].is_gps() && measurements[i].stamp()
                <= action->estimate_time_ns && !#[trigger] is_discarded(
                history,
                measurements,
                i,
            ) implies action->available_time_ns >= measurements[i].arrival() by {
            assert(order.contains(i));
            let p = choose|p: int| 0 <= p < order.len() && order[p] == i;
            assert(measurements[order[p]].is_gps());
        }
    } else {
        lemma_arrival_estimate(measurements, measurements.len() as int, index);
    }
}

proof fn lemma_arrival_estimate(measurements: Seq<EgoMeasurement>, count: int, index: int)
    requires
        measurements.len() <= usize::MAX,
        delivered_in_order(measurements, measurements.len() as int),
        0 <= count <= measurements.len(),
        0 <= index < arrival_actions(measurements, count).len(),
        arrival_actions(measurements, count)[index] is Estimate,
    ensures
        ({
            let action = arrival_actions(measurements, count)[index];
            let imu = action->Estimate_measurement;
            &&& measurements[imu as int].is_imu()
            &&& action->estimate_time_ns == measurements[imu as int].stamp()
            &&& action->available_time_ns >= action->estimate_time_ns
            &&& action->available_time_ns >= measurements[imu as int].arrival()
        }),
    decreases count,
{
    let before = arrival_actions(measurements, count - 1);
    let now = actions_at_arrival(measurements, count - 1);
    if index < before.len() {
        lemma_arrival_estimate(measurements, count - 1, index);
    } else {
        assert(now[index - before.len()] == arrival_actions(measurements, count)[index]);
        assert(is_orderly(measurements, count - 1));
    }
}

/// Where delays are compensated, every late delivery is either put back in its place or left
/// out.
pub proof fn law_late_deliveries_are_replayed_or_discarded(
    config: EgoEstimatorConfig,
    measurements: Seq<EgoMeasurement>,
)
    requires
        config.timing_compensation,
        config.history_duration_ns >= 0,
    ensures
        delayed_count(config, measurements) == replayed_count(config, measurements)
            + discarded_count(config, measurements),
{
    lemma_late_deliveries(
        config.history_duration_ns as int,
        measurements,
        measurements.len() as int,
    );
}

proof fn lemma_late_deliveries(history: int, measurements: Seq<EgoMeasurement>, count: int)
    requires
        history >= 0,
    ensures
        count_below(count, |i: int| lags(measurements, i)) == count_below(
            count,
            |i: int| is_replayed(history, measurements, i),
        ) + count_below(count, |i: int| is_discarded(history, measurements, i)),
    decreases count,
{
    if count > 0 {
        lemma_late_deliveries(history, measurements, count - 1);
    }
}

/// Where deliveries are taken as they arrive, every one is used and none is put back.
pub proof fn law_arrival_order_leaves_nothing_out(
    config: EgoEstimatorConfig,
    measurements: Seq<EgoMeasurement>,
)
    requires
        !config.timing_compensation,
    ensures
        discarded_count(config, measurements) == 0,
        replayed_count(config, measurements) == 0,
        revised_count(config, measurements) == 0,
        count_below(
            scheduled_actions(config, measurements).len() as int,
            |i: int| !(scheduled_actions(config, measurements)[i] is Estimate),
        ) == measurements.len(),
        count_below(
            scheduled_actions(config, measurements).len() as int,
            |i: int| scheduled_actions(config, measurements)[i] is Estimate,
        ) == count_below(measurements.len() as int, |i: int| measurements[i].is_imu()),
{
    lemma_arrival_uses(measurements, measurements.len() as int);
}

proof fn lemma_count_prefix<A>(
    short: Seq<A>,
    long: Seq<A>,
    count: int,
    property: spec_fn(A) -> bool,
)
    requires
        0 <= count <= short.len() <= long.len(),
        forall|i: int| 0 <= i < short.len() ==> short[i] == long[i],
    ensures
        count_below(count, |i: int| property(short[i])) == count_below(
            count,
            |i: int| property(long[i]),
        ),
    decreases count,
{
    if count > 0 {
        lemma_count_prefix(short, long, count - 1, property);
    }
}

proof fn lemma_arrival_uses(measurements: Seq<EgoMeasurement>, count: int)
    requires
        0 <= count,
    ensures
        count_below(
            arrival_actions(measurements, count).len() as int,
            |i: int| !(arrival_actions(measurements, count)[i] is Estimate),
        ) == count,
        count_below(
            arrival_actions(measurements, count).len() as int,
            |i: int| arrival_actions(measurements, count)[i] is Estimate,
        ) == count_below(count, |i: int| measurements[i].is_imu()),
    decreases count,
{
    if count > 0 {
        lemma_arrival_uses(measurements, count - 1);
        let before = arrival_actions(measurements, count - 1);
        let all = arrival_actions(measurements, count);
        let now = actions_at_arrival(measurements, count - 1);
        let reports = |action: FilterAction| action is Estimate;
        let uses = |action: FilterAction| !(action is Estimate);
        let length = before.len() as int;
        lemma_count_prefix(before, all, length, reports);
        lemma_count_prefix(before, all, length, uses);
        let report_at = |i: int| all[i] is Estimate;
        let use_at = |i: int| !(all[i] is Estimate);
        assert((|i: int| reports(all[i])) =~= report_at);
        assert((|i: int| uses(all[i])) =~= use_at);
        assert((|i: int| reports(before[i])) =~= (|i: int| before[i] is Estimate));
        assert((|i: int| uses(before[i])) =~= (|i: int| !(before[i] is Estimate)));
        assert(all[length] == now[0]);
        if now.len() == 2 {
            assert(all[length + 1] == now[1]);
            assert(count_below(length + 2, report_at) == count_below(length + 1, report_at) + 1);
            assert(count_below(length + 2, use_at) == count_below(length + 1, use_at));
        }
        assert(count_below(length + 1, report_at) == count_below(length, report_at));
        assert(count_below(length + 1, use_at) == count_below(length, use_at) + 1);
    }
}

/// Behind an IMU sample, up to the last delivery of its measurement time, there is always one to
/// report.
proof fn lemma_group_has_imu(
    measurements: Seq<EgoMeasurement>,
    order: Seq<int>,
    start: int,
    place: int,
)
    requires
        0 <= start <= place < order.len(),
        measurements[order[start]].is_imu(),
        forall|p: int|
            start <= p <= place ==> measurements[#[trigger] order[p]].stamp()
                == measurements[order[start]].stamp(),
    ensures
        group_imu(measurements, order, place) is Some,
    decreases place - start,
{
    if place > start {
        assert(measurements[order[place]].stamp() == measurements[order[place - 1]].stamp());
        lemma_group_has_imu(measurements, order, start, place - 1);
    }
}

/// The last place from `place` on with the same measurement time.
proof fn lemma_find_group_end(history: int, measurements: Seq<EgoMeasurement>, place: int) -> (end:
    int)
    requires
        0 <= place < measurement_order(history, measurements).len(),
    ensures
        ({
            let order = measurement_order(history, measurements);
            &&& place <= end < order.len()
            &&& ends_group(measurements, order, end)
            &&& forall|p: int|
                place <= p <= end ==> measurements[#[trigger] order[p]].stamp()
                    == measurements[order[place]].stamp()
        }),
    decreases measurement_order(history, measurements).len() - place,
{
    let order = measurement_order(history, measurements);
    if ends_group(measurements, order, place) {
        place
    } else {
        let end = lemma_find_group_end(history, measurements, place + 1);
        assert(measurements[order[place + 1]].stamp() == measurements[order[place]].stamp());
        end
    }
}

/// What is asked at a place is part of the schedule.
proof fn lemma_asked_is_scheduled(
    measurements: Seq<EgoMeasurement>,
    order: Seq<int>,
    count: int,
    place: int,
    action: FilterAction,
)
    requires
        0 <= place < count <= order.len(),
        is_asked_at(measurements, order, place, action),
    ensures
        ordered_actions(measurements, order, count).contains(action),
    decreases count,
{
    let before = ordered_actions(measurements, order, count - 1);
    let now = actions_in_order(measurements, order, count - 1);
    let all = ordered_actions(measurements, order, count);
    if place == count - 1 {
        let k = choose|k: int| 0 <= k < now.len() && now[k] == action;
        assert(all[before.len() + k] == action);
    } else {
        lemma_asked_is_scheduled(measurements, order, count - 1, place, action);
        let k = choose|k: int| 0 <= k < before.len() && before[k] == action;
        assert(all[k] == action);
    }
}

/// Where delays are compensated, there is an estimate for the time of every IMU sample.
pub proof fn law_every_imu_time_is_estimated(
    config: EgoEstimatorConfig,
    measurements: Seq<EgoMeasurement>,
    index: int,
)
    requires
        config.timing_compensation,
        0 <= index < measurements.len(),
        measurements[index].is_imu(),
    ensures
        exists|k: int|
            0 <= k < scheduled_actions(config, measurements).len() && (
            #[trigger] scheduled_actions(config, measurements)[k]) is Estimate
                && scheduled_actions(config, measurements)[k]->estimate_time_ns
                == measurements[index].stamp(),
{
    let history = config.history_duration_ns as int;
    let order = measurement_order(history, measurements);
    let actions = scheduled_actions(config, measurements);
    law_imu_samples_are_kept(history, measurements, index);
    let place = choose|place: int| 0 <= place < order.len() && order[place] == index;
    let end = lemma_find_group_end(history, measurements, place);
    lemma_group_has_imu(measurements, order, place, end);
    lemma_group_imu(measurements, order, end);
    let action = estimate_at(measurements, order, group_imu(measurements, order, end)->0);
    assert(actions_in_order(measurements, order, end)[1] == action);
    assert(is_asked_at(measurements, order, end, action));
    lemma_asked_is_scheduled(measurements, order, order.len() as int, end, action);
    let k = choose|k: int| 0 <= k < actions.len() && actions[k] == action;
    assert(measurements[order[end]].stamp() == measurements[index].stamp());
    assert(actions[k] is Estimate);
}

// Delays and the filter.

/// What decides the place of a delivery: when it was measured, and by which sensor.
pub open spec fn order_key(measurement: EgoMeasurement) -> (int, int) {
    (measurement.stamp(), spec_measurement_priority(measurement) as int)
}

/// The keys of the deliveries at the given places.
pub open spec fn keys_at(measurements: Seq<EgoMeasurement>, places: Seq<int>) -> Seq<(int, int)> {
    places.map_values(|place: int| order_key(measurements[place]))
}

pub open spec fn key_goes_before(a: (int, int), b: (int, int)) -> bool {
    a.0 < b.0 || (a.0 == b.0 && a.1 <= b.1)
}

/// The keys of all deliveries, in the order of arrival.
pub open spec fn all_keys(measurements: Seq<EgoMeasurement>) -> Seq<(int, int)> {
    measurements.map_values(|measurement: EgoMeasurement| order_key(measurement))
}

/// Lists with the same elements still have the same elements when each is replaced by its key.
proof fn lemma_keys_of_permutation(measurements: Seq<EgoMeasurement>, a: Seq<int>, b: Seq<int>)
    requires
        a.to_multiset() == b.to_multiset(),
    ensures
        keys_at(measurements, a).to_multiset() == keys_at(measurements, b).to_multiset(),
    decreases a.len(),
{
    broadcast use vstd::seq_lib::group_to_multiset_ensures;

    if a.len() == 0 {
        assert(b.to_multiset().len() == 0);
        assert(keys_at(measurements, a) =~= keys_at(measurements, b));
    } else {
        let last = a.last();
        let rest = a.drop_last();
        assert(a =~= rest.push(last));
        assert(a.to_multiset().count(last) > 0) by {
            assert(a[a.len() - 1] == last);
            assert(a.contains(last));
        }
        assert(b.contains(last));
        let i = choose|i: int| 0 <= i < b.len() && b[i] == last;
        let others = b.remove(i);
        assert(others.insert(i, last) =~= b);
        assert(rest.to_multiset() =~= others.to_multiset()) by {
            assert(rest.to_multiset().insert(last) == others.to_multiset().insert(last));
            assert(rest.to_multiset() =~= rest.to_multiset().insert(last).remove(last));
            assert(others.to_multiset() =~= others.to_multiset().insert(last).remove(last));
        }
        lemma_keys_of_permutation(measurements, rest, others);
        let key = order_key(measurements[last]);
        assert(keys_at(measurements, a) =~= keys_at(measurements, rest).push(key));
        assert(keys_at(measurements, b) =~= keys_at(measurements, others).insert(i, key));
    }
}

/// Where nothing is discarded, every delivery is accepted in the order of arrival.
pub proof fn lemma_all_accepted(history: int, measurements: Seq<EgoMeasurement>, count: int)
    requires
        0 <= count <= measurements.len(),
        forall|i: int|
            0 <= i < measurements.len() ==> !#[trigger] is_discarded(history, measurements, i),
    ensures
        accepted(history, measurements, count) == Seq::new(count as nat, |i: int| i),
    decreases count,
{
    if count > 0 {
        lemma_all_accepted(history, measurements, count - 1);
        assert(accepted(history, measurements, count) =~= Seq::new(count as nat, |i: int| i));
    } else {
        assert(accepted(history, measurements, count) =~= Seq::new(count as nat, |i: int| i));
    }
}

proof fn lemma_keys_in_order(history: int, measurements: Seq<EgoMeasurement>)
    requires
        forall|i: int|
            0 <= i < measurements.len() ==> !#[trigger] is_discarded(history, measurements, i),
    ensures
        keys_at(measurements, measurement_order(history, measurements)).to_multiset() == all_keys(
            measurements,
        ).to_multiset(),
        sorted_by(
            keys_at(measurements, measurement_order(history, measurements)),
            |a: (int, int), b: (int, int)| key_goes_before(a, b),
        ),
{
    let count = measurements.len() as int;
    let order = measurement_order(history, measurements);
    let pool = accepted(history, measurements, count);
    let leq = |i: int, j: int| goes_before(measurements, i, j);
    lemma_goes_before_is_total(measurements);
    pool.lemma_sort_by_ensures(leq);
    lemma_keys_of_permutation(measurements, order, pool);
    lemma_all_accepted(history, measurements, count);
    assert(keys_at(measurements, pool) =~= all_keys(measurements));
    lemma_measurement_order(history, measurements);
    let keys = keys_at(measurements, order);
    let key_leq = |a: (int, int), b: (int, int)| key_goes_before(a, b);
    assert forall|p: int, q: int| 0 <= p < q < keys.len() implies #[trigger] key_leq(
        keys[p],
        keys[q],
    ) by {
        assert(goes_before(measurements, order[p], order[q]));
    }
}

/// Compensation undoes delays: as long as nothing is discarded, what the filter is given depends
/// on when deliveries were measured and by which sensor, and not on when they arrived. Two streams
/// of the same measurements, whatever their order of arrival, are used in the same order.
pub proof fn law_compensation_undoes_delays(
    history: int,
    a: Seq<EgoMeasurement>,
    b: Seq<EgoMeasurement>,
)
    requires
        all_keys(a).to_multiset() == all_keys(b).to_multiset(),
        forall|i: int| 0 <= i < a.len() ==> !#[trigger] is_discarded(history, a, i),
        forall|i: int| 0 <= i < b.len() ==> !#[trigger] is_discarded(history, b, i),
    ensures
        keys_at(a, measurement_order(history, a)) == keys_at(b, measurement_order(history, b)),
{
    lemma_keys_in_order(history, a);
    lemma_keys_in_order(history, b);
    let leq = |a: (int, int), b: (int, int)| key_goes_before(a, b);
    assert(total_ordering(leq));
    vstd::seq_lib::lemma_sorted_unique(
        keys_at(a, measurement_order(history, a)),
        keys_at(b, measurement_order(history, b)),
        leq,
    );
}

} // verus!
