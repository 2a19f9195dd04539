//! What the requests to a filter are, in terms of the deliveries alone.
use vstd::prelude::*;

use crate::scenario::EgoEstimatorConfig;

use super::measurement::EgoMeasurement;
use super::run::{
    delayed_count, discarded_count, replayed_count, revised_count, scheduled_actions, subject,
};
use super::schedule::{
    actions_at_arrival, actions_in_order, arrival_actions, availability, count_below, ends_group,
    estimate_at, goes_before, group_imu, is_discarded, is_estimated, is_older_than_last_imu,
    is_replayed, is_revised, lags, last_imu_stamp, measurement_order, newest_imu_stamp,
    ordered_actions, spec_measurement_priority, use_of, FilterAction,
};
use super::schedule_laws::{lemma_latest_arrival, lemma_measurement_order};

verus! {

// Late deliveries.

/// Whether an IMU sample that was delivered before the delivery at `index` was measured more than
/// `margin` after it.
pub open spec fn is_overtaken(
    measurements: Seq<EgoMeasurement>,
    index: int,
    margin: int,
) -> bool {
    exists|j: int|
        0 <= j < index && (#[trigger] measurements[j]) is Imu && measurements[j].stamp()
            - measurements[index].stamp() > margin
}

/// Whether the delivery at `index` was measured before the IMU sample that was delivered last.
pub open spec fn is_behind_last_imu(measurements: Seq<EgoMeasurement>, index: int) -> bool {
    exists|j: int|
        0 <= j < index && (#[trigger] measurements[j]) is Imu && measurements[index].stamp()
            < measurements[j].stamp() && forall|k: int|
            j < k < index ==> !((#[trigger] measurements[k]) is Imu)
}

/// Whether the delivery at `index` is a GPS fix from before the history that is kept: an earlier
/// IMU sample is newer by more than that. Without such a sample a fix is taken to be on time. The
/// longest history keeps everything.
pub open spec fn is_left_out(
    history: int,
    measurements: Seq<EgoMeasurement>,
    index: int,
) -> bool {
    &&& measurements[index] is Gps
    &&& history < i64::MAX
    &&& if exists|j: int| 0 <= j < index && (#[trigger] measurements[j]) is Imu {
        is_overtaken(measurements, index, history)
    } else {
        history < 0
    }
}

proof fn lemma_newest(measurements: Seq<EgoMeasurement>, count: int)
    requires
        0 <= count,
    ensures
        match newest_imu_stamp(measurements, count) {
            Some(newest) => {
                &&& forall|j: int|
                    0 <= j < count && (#[trigger] measurements[j]) is Imu
                        ==> measurements[j].stamp() <= newest
                &&& exists|j: int|
                    0 <= j < count && (#[trigger] measurements[j]) is Imu && measurements[j].stamp()
                        == newest
            },
            None => forall|j: int| 0 <= j < count ==> !((#[trigger] measurements[j]) is Imu),
        },
    decreases count,
{
    if count > 0 {
        lemma_newest(measurements, count - 1);
        let last = measurements[count - 1];
        if newest_imu_stamp(measurements, count - 1) is Some {
            let newest = newest_imu_stamp(measurements, count - 1)->0;
            let j = choose|j: int|
                0 <= j < count - 1 && (#[trigger] measurements[j]) is Imu
                    && measurements[j].stamp() == newest;
            assert(measurements[j] is Imu);
        }
    }
}

proof fn lemma_last(measurements: Seq<EgoMeasurement>, count: int)
    requires
        0 <= count,
    ensures
        match last_imu_stamp(measurements, count) {
            Some(stamp) => exists|j: int|
                0 <= j < count && (#[trigger] measurements[j]) is Imu && measurements[j].stamp()
                    == stamp && forall|k: int|
                    j < k < count ==> !((#[trigger] measurements[k]) is Imu),
            None => forall|j: int| 0 <= j < count ==> !((#[trigger] measurements[j]) is Imu),
        },
    decreases count,
{
    if count > 0 {
        lemma_last(measurements, count - 1);
        let last = measurements[count - 1];
    }
}

/// A delivery is late where delays are compensated if an IMU sample that was measured after it
/// came before it. A GPS fix from before the history that is kept is left out, and everything else
/// that is late is put back. Where deliveries are taken as they arrive, only the last IMU sample
/// counts.
pub proof fn law_what_makes_a_delivery_late(
    history: int,
    measurements: Seq<EgoMeasurement>,
    index: int,
)
    requires
        i64::MIN <= history <= i64::MAX,
        0 <= index < measurements.len(),
    ensures
        lags(measurements, index) <==> is_overtaken(measurements, index, 0),
        is_discarded(history, measurements, index) <==> is_left_out(history, measurements, index),
        is_replayed(history, measurements, index) <==> is_overtaken(measurements, index, 0)
            && !is_left_out(history, measurements, index),
        is_older_than_last_imu(measurements, index) <==> is_behind_last_imu(measurements, index),
{
    lemma_newest(measurements, index);
    lemma_last(measurements, index);
    if is_behind_last_imu(measurements, index) {
        let j = choose|j: int|
            0 <= j < index && (#[trigger] measurements[j]) is Imu && measurements[index].stamp()
                < measurements[j].stamp() && forall|k: int|
                j < k < index ==> !((#[trigger] measurements[k]) is Imu);
        assert(last_imu_stamp(measurements, index) is Some);
        let l = choose|l: int|
            0 <= l < index && (#[trigger] measurements[l]) is Imu && measurements[l].stamp()
                == last_imu_stamp(measurements, index)->0 && forall|k: int|
                l < k < index ==> !((#[trigger] measurements[k]) is Imu);
        assert(measurements[j] is Imu && measurements[l] is Imu);
        assert(j == l);
    }
}

proof fn lemma_same_count(limit: int, a: spec_fn(int) -> bool, b: spec_fn(int) -> bool)
    requires
        forall|i: int| 0 <= i < limit ==> #[trigger] a(i) == b(i),
    ensures
        count_below(limit, a) == count_below(limit, b),
    decreases limit,
{
    if limit > 0 {
        lemma_same_count(limit - 1, a, b);
    }
}

/// The counts of a schedule are numbers of deliveries: those that came late, and of these those
/// that were put back and those that were left out.
pub proof fn law_late_deliveries_are_counted(
    config: EgoEstimatorConfig,
    measurements: Seq<EgoMeasurement>,
)
    ensures
        ({
            let count = measurements.len() as int;
            let history = config.history_duration_ns as int;
            &&& config.timing_compensation ==> {
                &&& delayed_count(config, measurements) == count_below(
                    count,
                    |i: int| is_overtaken(measurements, i, 0),
                )
                &&& discarded_count(config, measurements) == count_below(
                    count,
                    |i: int| is_left_out(history, measurements, i),
                )
                &&& replayed_count(config, measurements) == count_below(
                    count,
                    |i: int|
                        is_overtaken(measurements, i, 0) && !is_left_out(history, measurements, i),
                )
            }
            &&& !config.timing_compensation ==> {
                &&& delayed_count(config, measurements) == count_below(
                    count,
                    |i: int| is_behind_last_imu(measurements, i),
                )
                &&& discarded_count(config, measurements) == 0
                &&& replayed_count(config, measurements) == 0
                &&& revised_count(config, measurements) == 0
            }
        }),
{
    let count = measurements.len() as int;
    let history = config.history_duration_ns as int;
    let late = |i: int| is_overtaken(measurements, i, 0);
    let out = |i: int| is_left_out(history, measurements, i);
    let back = |i: int|
        is_overtaken(measurements, i, 0) && !is_left_out(history, measurements, i);
    let behind = |i: int| is_behind_last_imu(measurements, i);
    let lagging = |i: int| lags(measurements, i);
    let discarded = |i: int| is_discarded(history, measurements, i);
    let replayed = |i: int| is_replayed(history, measurements, i);
    let older = |i: int| is_older_than_last_imu(measurements, i);
    assert forall|i: int| 0 <= i < count implies #[trigger] lagging(i) == late(i) by {
        law_what_makes_a_delivery_late(history, measurements, i);
    }
    assert forall|i: int| 0 <= i < count implies #[trigger] discarded(i) == out(i) by {
        law_what_makes_a_delivery_late(history, measurements, i);
    }
    assert forall|i: int| 0 <= i < count implies #[trigger] replayed(i) == back(i) by {
        law_what_makes_a_delivery_late(history, measurements, i);
    }
    assert forall|i: int| 0 <= i < count implies #[trigger] older(i) == behind(i) by {
        law_what_makes_a_delivery_late(history, measurements, i);
    }
    lemma_same_count(count, lagging, late);
    lemma_same_count(count, discarded, out);
    lemma_same_count(count, replayed, back);
    lemma_same_count(count, older, behind);
}

// Estimates that were revised.

/// Whether `action` reports the state at an IMU sample later than when that sample arrived.
pub open spec fn waits_for_more(
    measurements: Seq<EgoMeasurement>,
    action: FilterAction,
) -> bool {
    action matches FilterAction::Estimate { measurement, available_time_ns, .. }
        && available_time_ns > measurements[measurement as int].arrival()
}

/// How many requests have the property.
spec fn tally(actions: Seq<FilterAction>, property: spec_fn(FilterAction) -> bool) -> nat
    decreases actions.len(),
{
    if actions.len() == 0 {
        0
    } else if property(actions.last()) {
        tally(actions.drop_last(), property) + 1
    } else {
        tally(actions.drop_last(), property)
    }
}

proof fn lemma_tally_is_count(
    actions: Seq<FilterAction>,
    property: spec_fn(FilterAction) -> bool,
    count: int,
)
    requires
        0 <= count <= actions.len(),
    ensures
        tally(actions.take(count), property) == count_below(count, |i: int| property(actions[i])),
    decreases count,
{
    if count > 0 {
        lemma_tally_is_count(actions, property, count - 1);
        assert(actions.take(count).drop_last() =~= actions.take(count - 1));
        assert(actions.take(count).last() == actions[count - 1]);
    }
}

proof fn lemma_tally_of_two(
    before: Seq<FilterAction>,
    now: Seq<FilterAction>,
    property: spec_fn(FilterAction) -> bool,
)
    requires
        1 <= now.len() <= 2,
        !property(now[0]),
    ensures
        tally(before + now, property) == tally(before, property) + (if now.len() == 2 && property(
            now[1],
        ) {
            1nat
        } else {
            0nat
        }),
{
    let first = before.push(now[0]);
    assert(first.drop_last() =~= before);
    assert(tally(first, property) == tally(before, property));
    if now.len() == 2 {
        assert((before + now).drop_last() =~= first);
        assert((before + now).last() == now[1]);
    } else {
        assert(before + now =~= first);
    }
}

proof fn lemma_estimate_is_representable(
    history: int,
    measurements: Seq<EgoMeasurement>,
    place: int,
)
    requires
        measurements.len() <= usize::MAX,
        0 <= place < measurement_order(history, measurements).len(),
        is_estimated(measurements, measurement_order(history, measurements), place),
    ensures
        ({
            let order = measurement_order(history, measurements);
            let imu = group_imu(measurements, order, place)->0;
            let action = estimate_at(measurements, order, imu);
            &&& 0 <= imu < measurements.len()
            &&& measurements[imu] is Imu
            &&& action->Estimate_measurement == imu
            &&& action->estimate_time_ns == measurements[imu].stamp()
            &&& action->estimate_time_ns == measurements[order[place]].stamp()
            &&& action->available_time_ns == availability(measurements, order, imu)
        }),
{
    let order = measurement_order(history, measurements);
    lemma_measurement_order(history, measurements);
    lemma_group_holder(measurements, order, place);
    let imu = group_imu(measurements, order, place)->0;
    lemma_latest_arrival(measurements, order, imu, order.len() as int);
}

/// The IMU sample of a group stands at some place, with only GPS fixes of its time behind it.
proof fn lemma_group_holder(measurements: Seq<EgoMeasurement>, order: Seq<int>, place: int) -> (p:
    int)
    requires
        0 <= place < order.len(),
        group_imu(measurements, order, place) is Some,
    ensures
        0 <= p <= place,
        order[p] == group_imu(measurements, order, place)->0,
        measurements[order[p]] is Imu,
        forall|q: int| p < q <= place ==> !(measurements[#[trigger] order[q]] is Imu),
        measurements[order[p]].stamp() == measurements[order[place]].stamp(),
    decreases place,
{
    if measurements[order[place]] is Imu {
        place
    } else {
        lemma_group_holder(measurements, order, place - 1)
    }
}

proof fn lemma_revised(history: int, measurements: Seq<EgoMeasurement>, count: int)
    requires
        measurements.len() <= usize::MAX,
        0 <= count <= measurement_order(history, measurements).len(),
    ensures
        ({
            let order = measurement_order(history, measurements);
            tally(
                ordered_actions(measurements, order, count),
                |action: FilterAction| waits_for_more(measurements, action),
            ) == count_below(count, |place: int| is_revised(measurements, order, place))
        }),
    decreases count,
{
    let order = measurement_order(history, measurements);
    let property = |action: FilterAction| waits_for_more(measurements, action);
    if count > 0 {
        let place = count - 1;
        lemma_revised(history, measurements, place);
        let now = actions_in_order(measurements, order, place);
        assert(now[0] == use_of(measurements, order[place]));
        lemma_tally_of_two(ordered_actions(measurements, order, place), now, property);
        if is_estimated(measurements, order, place) {
            lemma_estimate_is_representable(history, measurements, place);
            let imu = group_imu(measurements, order, place)->0;
            assert(now[1] == estimate_at(measurements, order, imu));
        }
    }
}

/// Where delays are compensated, the revised estimates are those that are available later than
/// their own IMU sample.
pub proof fn law_revised_estimates_are_counted(
    config: EgoEstimatorConfig,
    measurements: Seq<EgoMeasurement>,
)
    requires
        config.timing_compensation,
        measurements.len() <= usize::MAX,
    ensures
        revised_count(config, measurements) == count_below(
            scheduled_actions(config, measurements).len() as int,
            |k: int| waits_for_more(measurements, scheduled_actions(config, measurements)[k]),
        ),
{
    let history = config.history_duration_ns as int;
    let order = measurement_order(history, measurements);
    let actions = scheduled_actions(config, measurements);
    let property = |action: FilterAction| waits_for_more(measurements, action);
    lemma_revised(history, measurements, order.len() as int);
    lemma_tally_is_count(actions, property, actions.len() as int);
    assert(actions.take(actions.len() as int) =~= actions);
    let listed = |k: int| waits_for_more(measurements, actions[k]);
    let asked = |k: int| property(actions[k]);
    assert forall|k: int| 0 <= k < actions.len() implies #[trigger] asked(k) == listed(k) by {
    }
    lemma_same_count(actions.len() as int, asked, listed);
}

// Where the requests stand.

/// How many requests come before place `place`.
spec fn start_of(measurements: Seq<EgoMeasurement>, order: Seq<int>, place: int) -> int {
    ordered_actions(measurements, order, place).len() as int
}

proof fn lemma_starts_ascend(
    measurements: Seq<EgoMeasurement>,
    order: Seq<int>,
    a: int,
    b: int,
)
    requires
        0 <= a < b <= order.len(),
    ensures
        start_of(measurements, order, a) < start_of(measurements, order, b),
    decreases b,
{
    if a < b - 1 {
        lemma_starts_ascend(measurements, order, a, b - 1);
    }
}

/// What is asked at a place stands where the requests of the places before it end.
proof fn lemma_request_at(
    measurements: Seq<EgoMeasurement>,
    order: Seq<int>,
    count: int,
    place: int,
    offset: int,
)
    requires
        0 <= place < count <= order.len(),
        0 <= offset < actions_in_order(measurements, order, place).len(),
    ensures
        start_of(measurements, order, place) + offset < ordered_actions(
            measurements,
            order,
            count,
        ).len(),
        ordered_actions(measurements, order, count)[start_of(measurements, order, place) + offset]
            == actions_in_order(measurements, order, place)[offset],
    decreases count,
{
    if place < count - 1 {
        lemma_request_at(measurements, order, count - 1, place, offset);
    }
}

/// The place and the offset of a request.
proof fn lemma_find_request(
    measurements: Seq<EgoMeasurement>,
    order: Seq<int>,
    count: int,
    index: int,
) -> (found: (int, int))
    requires
        0 <= count <= order.len(),
        0 <= index < ordered_actions(measurements, order, count).len(),
    ensures
        0 <= found.0 < count,
        0 <= found.1 < actions_in_order(measurements, order, found.0).len(),
        index == start_of(measurements, order, found.0) + found.1,
        ordered_actions(measurements, order, count)[index] == actions_in_order(
            measurements,
            order,
            found.0,
        )[found.1],
    decreases count,
{
    let before = start_of(measurements, order, count - 1);
    if index < before {
        lemma_find_request(measurements, order, count - 1, index)
    } else {
        (count - 1, index - before)
    }
}

/// Whether the delivery at `i` was measured before the one at `j`; at one time IMU samples come
/// before GPS fixes, and of one sensor what arrived first, or was delivered first, comes first.
pub open spec fn is_used_before(measurements: Seq<EgoMeasurement>, i: int, j: int) -> bool {
    let (a, b) = (measurements[i], measurements[j]);
    ||| a.stamp() < b.stamp()
    ||| a.stamp() == b.stamp() && a is Imu && b is Gps
    ||| a.stamp() == b.stamp() && (a is Imu <==> b is Imu) && a.arrival() < b.arrival()
    ||| a.stamp() == b.stamp() && (a is Imu <==> b is Imu) && a.arrival() == b.arrival() && i < j
}

/// IMU samples have priority ten and GPS fixes twenty, whatever they say.
pub proof fn law_priority_goes_by_sensor(measurement: EgoMeasurement)
    ensures
        measurement is Imu <==> spec_measurement_priority(measurement) == 10,
        measurement is Gps <==> spec_measurement_priority(measurement) == 20,
{
}

/// Where delays are compensated, a request that uses a delivery stands for its sensor, and
/// requests use deliveries in the order of measurement, each at most once.
pub proof fn law_compensated_uses_are_in_order(
    config: EgoEstimatorConfig,
    measurements: Seq<EgoMeasurement>,
    earlier: int,
    later: int,
)
    requires
        config.timing_compensation,
        measurements.len() <= usize::MAX,
        0 <= earlier < later < scheduled_actions(config, measurements).len(),
        !(scheduled_actions(config, measurements)[earlier] is Estimate),
        !(scheduled_actions(config, measurements)[later] is Estimate),
    ensures
        ({
            let actions = scheduled_actions(config, measurements);
            let (i, j) = (subject(actions[earlier]), subject(actions[later]));
            &&& 0 <= i < measurements.len()
            &&& 0 <= j < measurements.len()
            &&& is_used_before(measurements, i, j)
            &&& actions[earlier] is Propagate <==> measurements[i] is Imu
            &&& actions[later] is Propagate <==> measurements[j] is Imu
        }),
{
    let history = config.history_duration_ns as int;
    let order = measurement_order(history, measurements);
    lemma_measurement_order(history, measurements);
    let count = order.len() as int;
    let (p, a) = lemma_find_request(measurements, order, count, earlier);
    let (q, b) = lemma_find_request(measurements, order, count, later);
    lemma_use_offset(measurements, order, p, a);
    lemma_use_offset(measurements, order, q, b);
    if q < p {
        lemma_starts_ascend(measurements, order, q, p);
    }
    assert(goes_before(measurements, order[p], order[q]));
    assert(order[p] != order[q]);
}

proof fn lemma_use_offset(
    measurements: Seq<EgoMeasurement>,
    order: Seq<int>,
    place: int,
    offset: int,
)
    requires
        0 <= place < order.len(),
        0 <= offset < actions_in_order(measurements, order, place).len(),
        !(actions_in_order(measurements, order, place)[offset] is Estimate),
    ensures
        offset == 0,
        actions_in_order(measurements, order, place)[offset] == use_of(
            measurements,
            order[place],
        ),
{
}

/// Where delays are compensated, a delivery is used if and only if it is not left out.
pub proof fn law_compensated_deliveries_are_used(
    config: EgoEstimatorConfig,
    measurements: Seq<EgoMeasurement>,
    index: int,
)
    requires
        config.timing_compensation,
        measurements.len() <= usize::MAX,
        0 <= index < measurements.len(),
    ensures
        (exists|k: int|
            0 <= k < scheduled_actions(config, measurements).len() && !((
            #[trigger] scheduled_actions(config, measurements)[k]) is Estimate) && subject(
                scheduled_actions(config, measurements)[k],
            ) == index) <==> !is_left_out(
            config.history_duration_ns as int,
            measurements,
            index,
        ),
{
    let history = config.history_duration_ns as int;
    let order = measurement_order(history, measurements);
    let actions = scheduled_actions(config, measurements);
    let count = order.len() as int;
    lemma_measurement_order(history, measurements);
    law_what_makes_a_delivery_late(history, measurements, index);
    if !is_discarded(history, measurements, index) {
        assert(order.contains(index));
        let place = choose|place: int| 0 <= place < order.len() && order[place] == index;
        lemma_request_at(measurements, order, count, place, 0);
        let k = start_of(measurements, order, place);
        assert(actions[k] == use_of(measurements, index));
    }
    if exists|k: int|
        0 <= k < actions.len() && !((#[trigger] actions[k]) is Estimate) && subject(actions[k])
            == index {
        let k = choose|k: int|
            0 <= k < actions.len() && !((#[trigger] actions[k]) is Estimate) && subject(actions[k])
                == index;
        let (place, offset) = lemma_find_request(measurements, order, count, k);
        lemma_use_offset(measurements, order, place, offset);
        assert(0 <= order[place] < measurements.len());
        assert(order.contains(order[place]));
        assert(!is_discarded(history, measurements, order[place]));
    }
}

/// Where delays are compensated, an estimate is asked right when everything measured up to its
/// time has been used, and nothing that was measured later.
pub proof fn law_compensated_estimates_come_after_all_they_use(
    config: EgoEstimatorConfig,
    measurements: Seq<EgoMeasurement>,
    report: int,
    other: int,
)
    requires
        config.timing_compensation,
        measurements.len() <= usize::MAX,
        0 <= report < scheduled_actions(config, measurements).len(),
        0 <= other < scheduled_actions(config, measurements).len(),
        scheduled_actions(config, measurements)[report] is Estimate,
        !(scheduled_actions(config, measurements)[other] is Estimate),
    ensures
        other < report <==> measurements[subject(
            scheduled_actions(config, measurements)[other],
        )].stamp() <= scheduled_actions(config, measurements)[report]->estimate_time_ns,
{
    let history = config.history_duration_ns as int;
    let order = measurement_order(history, measurements);
    let count = order.len() as int;
    lemma_measurement_order(history, measurements);
    let (p, a) = lemma_find_request(measurements, order, count, report);
    let (q, b) = lemma_find_request(measurements, order, count, other);
    lemma_use_offset(measurements, order, q, b);
    assert(actions_in_order(measurements, order, p)[0] == use_of(measurements, order[p]));
    assert(a == 1);
    lemma_estimate_is_representable(history, measurements, p);
    assert(0 <= order[q] < measurements.len());
    if q < p {
        lemma_starts_ascend(measurements, order, q, p);
        assert(goes_before(measurements, order[q], order[p]));
    }
    if q > p {
        lemma_starts_ascend(measurements, order, p, q);
        if p + 1 < q {
            lemma_starts_ascend(measurements, order, p + 1, q);
            assert(goes_before(measurements, order[p + 1], order[q]));
        }
        assert(start_of(measurements, order, p + 1) == start_of(measurements, order, p) + 2);
        assert(goes_before(measurements, order[p], order[p + 1]));
        assert(ends_group(measurements, order, p));
    }
}

/// Where delays are compensated, an estimate is about the IMU sample of its time that is used
/// last, and is available when that sample and every GPS fix that was measured no later, and is
/// not left out, have arrived: not earlier, and not later either. It is late exactly if one of
/// these fixes is.
pub proof fn law_compensated_estimates_are_available_in_time(
    config: EgoEstimatorConfig,
    measurements: Seq<EgoMeasurement>,
    report: int,
)
    requires
        config.timing_compensation,
        measurements.len() <= usize::MAX,
        0 <= report < scheduled_actions(config, measurements).len(),
        scheduled_actions(config, measurements)[report] is Estimate,
    ensures
        ({
            let history = config.history_duration_ns as int;
            let action = scheduled_actions(config, measurements)[report];
            let imu = action->Estimate_measurement as int;
            let available = action->available_time_ns as int;
            &&& 0 <= imu < measurements.len()
            &&& measurements[imu] is Imu
            &&& action->estimate_time_ns == measurements[imu].stamp()
            &&& forall|i: int|
                0 <= i < measurements.len() && i != imu && (#[trigger] measurements[i]) is Imu
                    && measurements[i].stamp() == measurements[imu].stamp() ==> is_used_before(
                    measurements,
                    i,
                    imu,
                )
            &&& available >= measurements[imu].arrival()
            &&& forall|i: int|
                0 <= i < measurements.len() && (#[trigger] measurements[i]) is Gps
                    && measurements[i].stamp() <= action->estimate_time_ns && !is_left_out(
                    history,
                    measurements,
                    i,
                ) ==> available >= measurements[i].arrival()
            &&& available > measurements[imu].arrival() <==> exists|i: int|
                0 <= i < measurements.len() && (#[trigger] measurements[i]) is Gps
                    && measurements[i].stamp() <= action->estimate_time_ns && !is_left_out(
                    history,
                    measurements,
                    i,
                ) && measurements[i].arrival() > measurements[imu].arrival()
            &&& available > measurements[imu].arrival() ==> exists|i: int|
                0 <= i < measurements.len() && (#[trigger] measurements[i]) is Gps
                    && measurements[i].stamp() <= action->estimate_time_ns && !is_left_out(
                    history,
                    measurements,
                    i,
                ) && measurements[i].arrival() == available
        }),
{
    let history = config.history_duration_ns as int;
    let order = measurement_order(history, measurements);
    let count = order.len() as int;
    let action = scheduled_actions(config, measurements)[report];
    assert forall|i: int| 0 <= i < measurements.len() implies is_discarded(
        history,
        measurements,
        i,
    ) == #[trigger] is_left_out(history, measurements, i) by {
        law_what_makes_a_delivery_late(history, measurements, i);
    }
    lemma_measurement_order(history, measurements);
    let (p, a) = lemma_find_request(measurements, order, count, report);
    assert(actions_in_order(measurements, order, p)[0] == use_of(measurements, order[p]));
    assert(a == 1);
    lemma_estimate_is_representable(history, measurements, p);
    let imu = group_imu(measurements, order, p)->0;
    assert(action == estimate_at(measurements, order, imu));
    let holder = lemma_group_holder(measurements, order, p);
    lemma_latest_arrival(measurements, order, imu, count);
    let available = action->available_time_ns as int;
    assert forall|i: int|
        0 <= i < measurements.len() && i != imu && (#[trigger] measurements[i]) is Imu
            && measurements[i].stamp() == measurements[imu].stamp() implies is_used_before(
        measurements,
        i,
        imu,
    ) by {
        assert(!is_discarded(history, measurements, i));
        assert(order.contains(i));
        let q = choose|q: int| 0 <= q < order.len() && order[q] == i;
        if q > p {
            assert(goes_before(measurements, order[p], order[p + 1]));
            if p + 1 < q {
                assert(goes_before(measurements, order[p + 1], order[q]));
            }
            assert(ends_group(measurements, order, p));
        }
        assert(q <= holder);
        assert(goes_before(measurements, order[q], order[holder]));
    }
    assert forall|i: int|
        0 <= i < measurements.len() && (#[trigger] measurements[i]) is Gps
            && measurements[i].stamp() <= action->estimate_time_ns && !is_discarded(
            history,
            measurements,
            i,
        ) implies available >= measurements[i].arrival() by {
        assert(order.contains(i));
        let q = choose|q: int| 0 <= q < order.len() && order[q] == i;
        assert(measurements[order[q]].is_gps());
    }
    if available > measurements[imu].arrival() {
        let q = choose|q: int|
            0 <= q < count && measurements[#[trigger] order[q]].is_gps()
                && measurements[order[q]].stamp() <= measurements[imu].stamp() && available
                == measurements[order[q]].arrival();
        let i = order[q];
        assert(order.contains(i));
        assert(!is_discarded(history, measurements, i));
        assert(measurements[i] is Gps);
    }
}

// Requests in the order of arrival.

spec fn arrival_start(measurements: Seq<EgoMeasurement>, index: int) -> int {
    arrival_actions(measurements, index).len() as int
}

proof fn lemma_arrival_starts_ascend(measurements: Seq<EgoMeasurement>, a: int, b: int)
    requires
        0 <= a < b,
    ensures
        arrival_start(measurements, a) < arrival_start(measurements, b),
        a + 1 < b ==> arrival_start(measurements, a + 1) <= arrival_start(measurements, b),
    decreases b,
{
    if a < b - 1 {
        lemma_arrival_starts_ascend(measurements, a, b - 1);
    }
}

proof fn lemma_find_arrival_request(
    measurements: Seq<EgoMeasurement>,
    count: int,
    index: int,
) -> (found: (int, int))
    requires
        0 <= count <= measurements.len(),
        0 <= index < arrival_actions(measurements, count).len(),
    ensures
        0 <= found.0 < count,
        0 <= found.1 < actions_at_arrival(measurements, found.0).len(),
        index == arrival_start(measurements, found.0) + found.1,
        arrival_actions(measurements, count)[index] == actions_at_arrival(
            measurements,
            found.0,
        )[found.1],
    decreases count,
{
    let before = arrival_start(measurements, count - 1);
    if index < before {
        lemma_find_arrival_request(measurements, count - 1, index)
    } else {
        (count - 1, index - before)
    }
}

proof fn lemma_arrival_request_at(
    measurements: Seq<EgoMeasurement>,
    count: int,
    index: int,
    offset: int,
)
    requires
        0 <= index < count <= measurements.len(),
        0 <= offset < actions_at_arrival(measurements, index).len(),
    ensures
        arrival_start(measurements, index) + offset < arrival_actions(measurements, count).len(),
        arrival_actions(measurements, count)[arrival_start(measurements, index) + offset]
            == actions_at_arrival(measurements, index)[offset],
    decreases count,
{
    if index < count - 1 {
        lemma_arrival_request_at(measurements, count - 1, index, offset);
    }
}

/// Where deliveries are taken as they arrive, every delivery is used once, at its turn: a GPS fix
/// corrects the state, an IMU sample moves it on and is followed at once by a report of the state
/// at its time, available on its arrival.
pub proof fn law_plain_requests_follow_the_deliveries(
    config: EgoEstimatorConfig,
    measurements: Seq<EgoMeasurement>,
    index: int,
)
    requires
        !config.timing_compensation,
        measurements.len() <= usize::MAX,
        0 <= index < measurements.len(),
    ensures
        ({
            let actions = scheduled_actions(config, measurements);
            exists|k: int|
                #![trigger actions[k]]
                0 <= k < actions.len() && actions[k] == (if measurements[index] is Gps {
                    FilterAction::UpdateGps { measurement: index as usize }
                } else {
                    FilterAction::Propagate { measurement: index as usize }
                }) && (measurements[index] is Imu ==> k + 1 < actions.len() && actions[k + 1] == (
                FilterAction::Estimate {
                    measurement: index as usize,
                    estimate_time_ns: measurements[index].stamp() as i64,
                    available_time_ns: measurements[index].arrival() as i64,
                }))
        }),
{
    let actions = scheduled_actions(config, measurements);
    let count = measurements.len() as int;
    let k = arrival_start(measurements, index);
    lemma_arrival_request_at(measurements, count, index, 0);
    if measurements[index] is Imu {
        lemma_arrival_request_at(measurements, count, index, 1);
    }
    assert(actions[k] == actions_at_arrival(measurements, index)[0]);
}

/// Where deliveries are taken as they arrive, no request about a delivery comes before one about
/// an earlier delivery, and no two requests are alike.
pub proof fn law_plain_requests_keep_the_order_of_arrival(
    config: EgoEstimatorConfig,
    measurements: Seq<EgoMeasurement>,
    earlier: int,
    later: int,
)
    requires
        !config.timing_compensation,
        measurements.len() <= usize::MAX,
        0 <= earlier < later < scheduled_actions(config, measurements).len(),
    ensures
        subject(scheduled_actions(config, measurements)[earlier]) <= subject(
            scheduled_actions(config, measurements)[later],
        ),
        scheduled_actions(config, measurements)[earlier] != scheduled_actions(
            config,
            measurements,
        )[later],
{
    let count = measurements.len() as int;
    let (p, a) = lemma_find_arrival_request(measurements, count, earlier);
    let (q, b) = lemma_find_arrival_request(measurements, count, later);
    if q < p {
        lemma_arrival_starts_ascend(measurements, q, p);
        assert(arrival_start(measurements, q + 1) == arrival_start(measurements, q)
            + actions_at_arrival(measurements, q).len());
    }
}

} // verus!
