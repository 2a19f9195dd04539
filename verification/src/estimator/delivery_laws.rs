//! What becomes of the deliveries of a stream: those in order, and those of GPS fixes.
use vstd::prelude::*;
use vstd::relations::sorted_by;

use crate::scenario::EgoEstimatorConfig;

use super::laws::law_every_request_is_answered;
use super::measurement::{delivered_in_order, law_arrivals_ascend, EgoMeasurement};
use super::run::{
    delayed_count, discarded_count, fixes_of, goes_on, is_outcome, is_transcript, replayed_count,
    revised_count, scheduled_actions, EstimatorRun, FilterReply,
};
use super::schedule::{
    accepted, actions_at_arrival, actions_in_order, arrival_actions, availability, count_below,
    ends_group, goes_before, group_imu, is_discarded, is_older_than_last_imu, is_replayed,
    is_revised, lags, last_imu_stamp, lemma_goes_before_is_total, measurement_order,
    newest_imu_stamp, ordered_actions, use_of, FilterAction,
};
use super::schedule_laws::{lemma_all_accepted, lemma_latest_arrival};
use super::settings::{ActiveEstimator, EstimatorSettings};

verus! {

// Streams that are delivered as they are measured.

/// Whether each delivery was measured after those before it.
pub open spec fn measured_in_order(measurements: Seq<EgoMeasurement>) -> bool {
    forall|i: int, j: int|
        0 <= i < j < measurements.len() ==> (#[trigger] measurements[i]).stamp() < (
        #[trigger] measurements[j]).stamp()
}

proof fn lemma_imu_stamps_are_older(measurements: Seq<EgoMeasurement>, count: int, index: int)
    requires
        measured_in_order(measurements),
        0 <= count <= index < measurements.len(),
    ensures
        newest_imu_stamp(measurements, count) matches Some(stamp) ==> stamp
            < measurements[index].stamp(),
        last_imu_stamp(measurements, count) matches Some(stamp) ==> stamp
            < measurements[index].stamp(),
    decreases count,
{
    if count > 0 {
        lemma_imu_stamps_are_older(measurements, count - 1, index);
        assert(measurements[count - 1].stamp() < measurements[index].stamp());
    }
}

proof fn lemma_nothing_is_late(history: int, measurements: Seq<EgoMeasurement>, index: int)
    requires
        measured_in_order(measurements),
        history >= 0,
        0 <= index < measurements.len(),
    ensures
        !is_older_than_last_imu(measurements, index),
        !lags(measurements, index),
        !is_replayed(history, measurements, index),
        !is_discarded(history, measurements, index),
{
    lemma_imu_stamps_are_older(measurements, index, index);
}

proof fn lemma_count_none(limit: int, property: spec_fn(int) -> bool)
    requires
        forall|i: int| 0 <= i < limit ==> !#[trigger] property(i),
    ensures
        count_below(limit, property) == 0,
    decreases limit,
{
    if limit > 0 {
        lemma_count_none(limit - 1, property);
    }
}

proof fn lemma_order_is_kept(history: int, measurements: Seq<EgoMeasurement>)
    requires
        measured_in_order(measurements),
        history >= 0,
    ensures
        measurement_order(history, measurements) == Seq::new(measurements.len(), |i: int| i),
{
    let count = measurements.len() as int;
    let pool = accepted(history, measurements, count);
    let order = measurement_order(history, measurements);
    let leq = |i: int, j: int| goes_before(measurements, i, j);
    assert forall|i: int| 0 <= i < count implies !#[trigger] is_discarded(
        history,
        measurements,
        i,
    ) by {
        lemma_nothing_is_late(history, measurements, i);
    }
    lemma_all_accepted(history, measurements, count);
    assert(sorted_by(pool, leq)) by {
        assert forall|p: int, q: int| 0 <= p < q < pool.len() implies #[trigger] leq(
            pool[p],
            pool[q],
        ) by {
            assert(measurements[p].stamp() < measurements[q].stamp());
        }
    }
    lemma_goes_before_is_total(measurements);
    pool.lemma_sort_by_ensures(leq);
    vstd::seq_lib::lemma_sorted_unique(pool, order, leq);
}

proof fn lemma_estimates_wait_for_nothing(
    measurements: Seq<EgoMeasurement>,
    order: Seq<int>,
    imu: int,
)
    requires
        measured_in_order(measurements),
        delivered_in_order(measurements, measurements.len() as int),
        order == Seq::new(measurements.len(), |i: int| i),
        0 <= imu < measurements.len(),
    ensures
        availability(measurements, order, imu) == measurements[imu].arrival(),
{
    lemma_latest_arrival(measurements, order, imu, order.len() as int);
    if availability(measurements, order, imu) > measurements[imu].arrival() {
        let p = choose|p: int|
            0 <= p < order.len() && measurements[#[trigger] order[p]].is_gps()
                && measurements[order[p]].stamp() <= measurements[imu].stamp() && availability(
                measurements,
                order,
                imu,
            ) == measurements[order[p]].arrival();
        assert(order[p] == p);
        if p > imu {
            assert(measurements[imu].stamp() < measurements[p].stamp());
        }
        law_arrivals_ascend(measurements, p, imu);
    }
}

proof fn lemma_groups_are_single(
    measurements: Seq<EgoMeasurement>,
    order: Seq<int>,
    place: int,
)
    requires
        measured_in_order(measurements),
        order == Seq::new(measurements.len(), |i: int| i),
        0 <= place < measurements.len(),
    ensures
        ends_group(measurements, order, place),
        group_imu(measurements, order, place) == (if measurements[place].is_imu() {
            Some(place)
        } else {
            None::<int>
        }),
{
    assert(order[place] == place);
    if place > 0 {
        assert(order[place - 1] == place - 1);
        assert(measurements[place - 1].stamp() < measurements[place].stamp());
    }
    if place + 1 < measurements.len() {
        assert(order[place + 1] == place + 1);
        assert(measurements[place].stamp() < measurements[place + 1].stamp());
    }
}

proof fn lemma_same_requests(measurements: Seq<EgoMeasurement>, order: Seq<int>, count: int)
    requires
        measured_in_order(measurements),
        delivered_in_order(measurements, measurements.len() as int),
        order == Seq::new(measurements.len(), |i: int| i),
        0 <= count <= measurements.len(),
    ensures
        ordered_actions(measurements, order, count) == arrival_actions(measurements, count),
    decreases count,
{
    if count > 0 {
        let place = count - 1;
        lemma_same_requests(measurements, order, place);
        lemma_groups_are_single(measurements, order, place);
        lemma_estimates_wait_for_nothing(measurements, order, place);
        assert(order[place] == place);
        assert(actions_in_order(measurements, order, place) =~= actions_at_arrival(
            measurements,
            place,
        ));
    }
}

/// Compensation changes nothing where there is nothing to compensate: if each delivery was
/// measured after those before it, the filter is asked the same with and without compensation,
/// and nothing counts as late.
pub proof fn law_compensation_changes_nothing_in_order(
    compensating: EgoEstimatorConfig,
    plain: EgoEstimatorConfig,
    measurements: Seq<EgoMeasurement>,
)
    requires
        compensating.timing_compensation,
        !plain.timing_compensation,
        compensating.history_duration_ns >= 0,
        delivered_in_order(measurements, measurements.len() as int),
        measured_in_order(measurements),
    ensures
        scheduled_actions(compensating, measurements) == scheduled_actions(plain, measurements),
        delayed_count(compensating, measurements) == 0,
        replayed_count(compensating, measurements) == 0,
        discarded_count(compensating, measurements) == 0,
        revised_count(compensating, measurements) == 0,
        delayed_count(plain, measurements) == 0,
        replayed_count(plain, measurements) == 0,
        discarded_count(plain, measurements) == 0,
        revised_count(plain, measurements) == 0,
{
    let history = compensating.history_duration_ns as int;
    let count = measurements.len() as int;
    let order = measurement_order(history, measurements);
    lemma_order_is_kept(history, measurements);
    lemma_same_requests(measurements, order, count);
    assert forall|i: int| 0 <= i < count implies !lags(measurements, i) && !is_older_than_last_imu(
        measurements,
        i,
    ) && !is_replayed(history, measurements, i) && !#[trigger] is_discarded(
        history,
        measurements,
        i,
    ) by {
        lemma_nothing_is_late(history, measurements, i);
    }
    assert forall|place: int| 0 <= place < count implies !#[trigger] is_revised(
        measurements,
        order,
        place,
    ) by {
        lemma_groups_are_single(measurements, order, place);
        lemma_estimates_wait_for_nothing(measurements, order, place);
    }
    let lagging = |i: int| lags(measurements, i);
    let older = |i: int| is_older_than_last_imu(measurements, i);
    let replayed = |i: int| is_replayed(history, measurements, i);
    let discarded = |i: int| is_discarded(history, measurements, i);
    let revised = |place: int| is_revised(measurements, order, place);
    assert forall|i: int| 0 <= i < count implies !#[trigger] lagging(i) by {
        assert(!is_discarded(history, measurements, i));
    }
    assert forall|i: int| 0 <= i < count implies !#[trigger] older(i) by {
        assert(!is_discarded(history, measurements, i));
    }
    assert forall|i: int| 0 <= i < count implies !#[trigger] replayed(i) by {
        assert(!is_discarded(history, measurements, i));
    }
    lemma_count_none(count, lagging);
    lemma_count_none(count, older);
    lemma_count_none(count, replayed);
    lemma_count_none(count, discarded);
    lemma_count_none(count, revised);
}

/// Whether `replies` is what a filter gives that answers each request by the requests so far
/// alone.
pub open spec fn comes_from(
    filter: spec_fn(Seq<FilterAction>) -> FilterReply,
    actions: Seq<FilterAction>,
    replies: Seq<FilterReply>,
) -> bool {
    forall|i: int|
        0 <= i < replies.len() ==> #[trigger] replies[i] == filter(actions.take(i + 1))
}

/// With one filter, a stream whose deliveries were each measured after those before it gives the
/// same estimates and the same account of GPS fixes with and without compensation.
pub proof fn law_runs_in_order_do_not_need_compensation(
    compensating: EgoEstimatorConfig,
    plain: EgoEstimatorConfig,
    settings: EstimatorSettings,
    measurements: Seq<EgoMeasurement>,
    filter: spec_fn(Seq<FilterAction>) -> FilterReply,
    active: ActiveEstimator,
    replies: Seq<FilterReply>,
    plain_replies: Seq<FilterReply>,
    run: EstimatorRun,
    plain_run: EstimatorRun,
)
    requires
        compensating.timing_compensation,
        plain == (EgoEstimatorConfig { timing_compensation: false, ..compensating }),
        compensating.history_duration_ns >= 0,
        delivered_in_order(measurements, measurements.len() as int),
        measured_in_order(measurements),
        is_transcript(
            compensating.algorithm,
            scheduled_actions(compensating, measurements),
            replies,
        ),
        is_transcript(plain.algorithm, scheduled_actions(plain, measurements), plain_replies),
        comes_from(filter, scheduled_actions(compensating, measurements), replies),
        comes_from(filter, scheduled_actions(plain, measurements), plain_replies),
        is_outcome(compensating, settings, measurements, Some(active), replies, Ok(run)),
        is_outcome(plain, settings, measurements, Some(active), plain_replies, Ok(plain_run)),
    ensures
        run.estimates@ == plain_run.estimates@,
        run.gps_diagnostics == plain_run.gps_diagnostics,
        run.timing.delayed_measurements == 0,
        run.timing.replayed_measurements == 0,
        run.timing.discarded_measurements == 0,
        run.timing.revised_estimates == 0,
        plain_run.timing.delayed_measurements == 0,
{
    law_compensation_changes_nothing_in_order(compensating, plain, measurements);
    assert(replies =~= plain_replies);
}

// GPS fixes.

/// How many of the deliveries at the given places are GPS fixes.
spec fn fixes_at(measurements: Seq<EgoMeasurement>, places: Seq<int>) -> nat
    decreases places.len(),
{
    if places.len() == 0 {
        0
    } else if measurements[places.last()].is_gps() {
        fixes_at(measurements, places.drop_last()) + 1
    } else {
        fixes_at(measurements, places.drop_last())
    }
}

proof fn lemma_fixes_at(measurements: Seq<EgoMeasurement>, places: Seq<int>)
    ensures
        fixes_at(measurements, places) == places.to_multiset().filter(
            |place: int| measurements[place].is_gps(),
        ).len(),
    decreases places.len(),
{
    broadcast use vstd::seq_lib::group_to_multiset_ensures;
    broadcast use vstd::multiset::group_multiset_axioms;

    let is_fix = |place: int| measurements[place].is_gps();
    let all = places.to_multiset().filter(is_fix);
    if places.len() > 0 {
        let rest = places.drop_last();
        let last = places.last();
        lemma_fixes_at(measurements, rest);
        assert(places =~= rest.push(last));
        let before = rest.to_multiset().filter(is_fix);
        if is_fix(last) {
            assert(all =~= before.insert(last));
        } else {
            assert(all =~= before);
        }
    } else {
        assert(places.to_multiset().len() == 0);
        assert(all =~= vstd::multiset::Multiset::<int>::empty());
    }
}

proof fn lemma_fixes_accepted(history: int, measurements: Seq<EgoMeasurement>, count: int)
    requires
        0 <= count,
    ensures
        fixes_at(measurements, accepted(history, measurements, count)) + count_below(
            count,
            |i: int| is_discarded(history, measurements, i),
        ) == count_below(count, |i: int| measurements[i].is_gps()),
    decreases count,
{
    if count > 0 {
        lemma_fixes_accepted(history, measurements, count - 1);
        let before = accepted(history, measurements, count - 1);
        assert(before.push(count - 1).drop_last() =~= before);
    }
}

/// How many of the requests give the filter a GPS fix.
spec fn updates_in(actions: Seq<FilterAction>) -> nat
    decreases actions.len(),
{
    if actions.len() == 0 {
        0
    } else if actions.last() is UpdateGps {
        updates_in(actions.drop_last()) + 1
    } else {
        updates_in(actions.drop_last())
    }
}

proof fn lemma_updates_are_counted(actions: Seq<FilterAction>, count: int)
    requires
        0 <= count <= actions.len(),
    ensures
        updates_in(actions.take(count)) == count_below(count, |i: int| actions[i] is UpdateGps),
    decreases count,
{
    if count > 0 {
        lemma_updates_are_counted(actions, count - 1);
        assert(actions.take(count).drop_last() =~= actions.take(count - 1));
        assert(actions.take(count).last() == actions[count - 1]);
    }
}

proof fn lemma_updates_of_two(before: Seq<FilterAction>, now: Seq<FilterAction>)
    requires
        1 <= now.len() <= 2,
        now.len() == 2 ==> now[1] is Estimate,
    ensures
        updates_in(before + now) == updates_in(before) + (if now[0] is UpdateGps {
            1nat
        } else {
            0nat
        }),
{
    let first = before.push(now[0]);
    assert(first.drop_last() =~= before);
    assert(updates_in(first) == updates_in(before) + (if now[0] is UpdateGps {
        1nat
    } else {
        0nat
    }));
    if now.len() == 2 {
        assert((before + now).drop_last() =~= first);
        assert((before + now).last() == now[1]);
    } else {
        assert(before + now =~= first);
    }
}

proof fn lemma_updates_in_order(measurements: Seq<EgoMeasurement>, order: Seq<int>, count: int)
    requires
        0 <= count <= order.len(),
    ensures
        updates_in(ordered_actions(measurements, order, count)) == fixes_at(
            measurements,
            order.take(count),
        ),
    decreases count,
{
    if count > 0 {
        lemma_updates_in_order(measurements, order, count - 1);
        assert(order.take(count).drop_last() =~= order.take(count - 1));
        assert(order.take(count).last() == order[count - 1]);
        let now = actions_in_order(measurements, order, count - 1);
        assert(now[0] == use_of(measurements, order[count - 1]));
        lemma_updates_of_two(ordered_actions(measurements, order, count - 1), now);
    }
}

proof fn lemma_updates_at_arrival(measurements: Seq<EgoMeasurement>, count: int)
    requires
        0 <= count,
    ensures
        updates_in(arrival_actions(measurements, count)) == count_below(
            count,
            |i: int| measurements[i].is_gps(),
        ),
    decreases count,
{
    if count > 0 {
        lemma_updates_at_arrival(measurements, count - 1);
        let now = actions_at_arrival(measurements, count - 1);
        lemma_updates_of_two(arrival_actions(measurements, count - 1), now);
    }
}

/// Every GPS fix that is delivered is either given to the filter once or left out.
pub proof fn law_every_fix_is_used_or_discarded(
    config: EgoEstimatorConfig,
    measurements: Seq<EgoMeasurement>,
)
    ensures
        count_below(
            scheduled_actions(config, measurements).len() as int,
            |i: int| scheduled_actions(config, measurements)[i] is UpdateGps,
        ) + discarded_count(config, measurements) == count_below(
            measurements.len() as int,
            |i: int| measurements[i].is_gps(),
        ),
{
    let actions = scheduled_actions(config, measurements);
    let count = measurements.len() as int;
    lemma_updates_are_counted(actions, actions.len() as int);
    assert(actions.take(actions.len() as int) =~= actions);
    if config.timing_compensation {
        let history = config.history_duration_ns as int;
        let order = measurement_order(history, measurements);
        let pool = accepted(history, measurements, count);
        lemma_updates_in_order(measurements, order, order.len() as int);
        assert(order.take(order.len() as int) =~= order);
        lemma_goes_before_is_total(measurements);
        pool.lemma_sort_by_ensures(|i: int, j: int| goes_before(measurements, i, j));
        lemma_fixes_at(measurements, order);
        lemma_fixes_at(measurements, pool);
        lemma_fixes_accepted(history, measurements, count);
    } else {
        lemma_updates_at_arrival(measurements, count);
    }
}

/// A run that succeeds accounts for every GPS fix that was delivered: those that it attempted and
/// those that it discarded are all there are.
pub proof fn law_runs_account_for_every_fix(
    config: EgoEstimatorConfig,
    settings: EstimatorSettings,
    measurements: Seq<EgoMeasurement>,
    active: ActiveEstimator,
    replies: Seq<FilterReply>,
    run: EstimatorRun,
)
    requires
        replies.len() <= usize::MAX,
        delivered_in_order(measurements, measurements.len() as int),
        is_transcript(config.algorithm, scheduled_actions(config, measurements), replies),
        is_outcome(config, settings, measurements, Some(active), replies, Ok(run)),
    ensures
        run.gps_diagnostics.attempted_fixes + run.timing.discarded_measurements == count_below(
            measurements.len() as int,
            |i: int| measurements[i].is_gps(),
        ),
{
    let actions = scheduled_actions(config, measurements);
    assert(goes_on(config.algorithm, replies, replies.len() as int));
    law_every_request_is_answered(config.algorithm, actions, replies);
    law_every_fix_is_used_or_discarded(config, measurements);
    assert(run.gps_diagnostics == fixes_of(replies));
}

} // verus!
