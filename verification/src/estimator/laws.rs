//! What holds of every run.
use vstd::prelude::*;

use crate::messages::EgoStateEstimate;
use crate::scenario::{EgoEstimatorAlgorithm, EgoEstimatorConfig};

use super::estimate::estimate_is_valid;
use super::measurement::{delivered_in_order, is_orderly, law_arrivals_ascend, EgoMeasurement};
use super::run::{
    answers, estimates_of, fixes_of, goes_on, is_transcript, scheduled_actions, stops, FilterReply,
};
use super::schedule::{count_below, FilterAction};
use super::schedule_laws::law_estimates_wait_for_what_they_use;
use super::settings::{ActiveEstimator, EstimatorAssumptions, EstimatorSettings};
use super::timing::{
    delivered_any, delivery_age, is_freshness, is_from, is_last_delivery, is_longest_silence,
    is_maximum_delivery_age, is_newest_stamp, is_timing, saturated, SensorFreshness,
    TimingDiagnostics,
};

verus! {

/// The deliveries alone determine the freshness of a sensor.
pub proof fn law_freshness_is_determined(
    measurements: Seq<EgoMeasurement>,
    gps: bool,
    a: SensorFreshness,
    b: SensorFreshness,
)
    requires
        is_freshness(measurements, gps, a),
        is_freshness(measurements, gps, b),
    ensures
        a == b,
{
    let count = measurements.len() as int;
    if delivered_any(measurements, gps, count) {
        assert forall|p: int, q: int|
            #[trigger] is_last_delivery(measurements, gps, count, p)
                && #[trigger] is_last_delivery(measurements, gps, count, q) implies p == q by {
            assert(is_from(measurements, gps, p) && is_from(measurements, gps, q));
        }
        assert forall|s: int, t: int|
            #[trigger] is_newest_stamp(measurements, gps, count, s) && #[trigger] is_newest_stamp(
                measurements,
                gps,
                count,
                t,
            ) implies s == t by {
            let i = choose|i: int|
                0 <= i < count && #[trigger] is_from(measurements, gps, i)
                    && measurements[i].stamp() == s;
            let j = choose|j: int|
                0 <= j < count && #[trigger] is_from(measurements, gps, j)
                    && measurements[j].stamp() == t;
            assert(is_from(measurements, gps, i) && is_from(measurements, gps, j));
        }
        assert forall|g: int, h: int|
            #[trigger] is_longest_silence(measurements, gps, count, g)
                && #[trigger] is_longest_silence(measurements, gps, count, h) implies g == h by {
        }
    }
}

/// A packet counts as received whatever the filter makes of it: freshness and delivery age do not
/// depend on the configuration or on what was delayed, replayed, discarded or revised.
pub proof fn law_freshness_ignores_what_the_filter_does(
    config: EgoEstimatorConfig,
    other_config: EgoEstimatorConfig,
    measurements: Seq<EgoMeasurement>,
    counts: (int, int, int, int),
    other_counts: (int, int, int, int),
    timing: TimingDiagnostics,
    other: TimingDiagnostics,
)
    requires
        is_timing(config, measurements, counts.0, counts.1, counts.2, counts.3, timing),
        is_timing(
            other_config,
            measurements,
            other_counts.0,
            other_counts.1,
            other_counts.2,
            other_counts.3,
            other,
        ),
    ensures
        timing.gps_freshness == other.gps_freshness,
        timing.imu_freshness == other.imu_freshness,
        timing.freshness_observed_at_ns == other.freshness_observed_at_ns,
        timing.received_measurements == other.received_measurements,
        timing.maximum_delivery_age_ns == other.maximum_delivery_age_ns,
{
    law_freshness_is_determined(measurements, true, timing.gps_freshness, other.gps_freshness);
    law_freshness_is_determined(measurements, false, timing.imu_freshness, other.imu_freshness);
}

/// In a stream that is in order ages are not negative, a packet is measured before it is received,
/// and the longest silence counts the one at the end.
pub proof fn law_ages_are_ordered(
    measurements: Seq<EgoMeasurement>,
    gps: bool,
    freshness: SensorFreshness,
)
    requires
        delivered_in_order(measurements, measurements.len() as int),
        is_freshness(measurements, gps, freshness),
        freshness.final_receipt_age_ns is Some,
    ensures
        0 <= freshness.final_receipt_age_ns->0,
        freshness.final_receipt_age_ns->0 <= freshness.final_measurement_age_ns->0,
        freshness.final_receipt_age_ns->0 <= freshness.maximum_receipt_gap_ns->0,
{
    let count = measurements.len() as int;
    let now = measurements[count - 1].arrival();
    let last = choose|last: int|
        #[trigger] is_last_delivery(measurements, gps, count, last)
            && freshness.final_receipt_age_ns->0 == saturated(now - measurements[last].arrival());
    let stamp = choose|stamp: int|
        #[trigger] is_newest_stamp(measurements, gps, count, stamp)
            && freshness.final_measurement_age_ns->0 == saturated(now - stamp);
    let i = choose|i: int|
        0 <= i < count && #[trigger] is_from(measurements, gps, i) && measurements[i].stamp()
            == stamp;
    law_arrivals_ascend(measurements, last, count - 1);
    assert(i <= last) by {
        assert(is_from(measurements, gps, i));
    }
    law_arrivals_ascend(measurements, i, last);
    assert(is_orderly(measurements, i));
}

/// A sensor has ages exactly if it delivered something.
pub proof fn law_ages_need_a_packet(
    measurements: Seq<EgoMeasurement>,
    gps: bool,
    freshness: SensorFreshness,
)
    requires
        is_freshness(measurements, gps, freshness),
    ensures
        ({
            let delivered = delivered_any(measurements, gps, measurements.len() as int);
            &&& freshness.final_receipt_age_ns is Some <==> delivered
            &&& freshness.final_measurement_age_ns is Some <==> delivered
            &&& freshness.maximum_receipt_gap_ns is Some <==> delivered
        }),
{
}

/// In a stream that is in order no delivery has a negative age.
pub proof fn law_delivery_age_is_not_negative(measurements: Seq<EgoMeasurement>, age: int)
    requires
        delivered_in_order(measurements, measurements.len() as int),
        is_maximum_delivery_age(measurements, age),
    ensures
        age >= 0,
{
    if measurements.len() > 0 {
        assert(is_orderly(measurements, 0));
        assert(delivery_age(measurements, 0) <= age);
    }
}

/// Every GPS fix that a filter was given was accepted, rejected or invalid.
pub proof fn law_every_fix_is_accounted_for(replies: Seq<FilterReply>)
    requires
        replies.len() <= usize::MAX,
    ensures
        fixes_of(replies).is_balanced(),
        fixes_of(replies).attempted_fixes == count_below(
            replies.len() as int,
            |i: int| replies[i] is Updated,
        ),
        fixes_of(replies).attempted_fixes <= replies.len(),
    decreases replies.len(),
{
    if replies.len() > 0 {
        let rest = replies.drop_last();
        law_every_fix_is_accounted_for(rest);
        lemma_updates_of_prefix(replies, rest.len() as int);
    }
}

proof fn lemma_updates_of_prefix(replies: Seq<FilterReply>, count: int)
    requires
        0 <= count <= replies.len() - 1,
    ensures
        count_below(count, |i: int| replies[i] is Updated) == count_below(
            count,
            |i: int| replies.drop_last()[i] is Updated,
        ),
    decreases count,
{
    if count > 0 {
        lemma_updates_of_prefix(replies, count - 1);
    }
}

/// The estimates of a run that succeeds are what its algorithm declares.
pub proof fn law_reported_estimates_are_valid(
    algorithm: EgoEstimatorAlgorithm,
    replies: Seq<FilterReply>,
    index: int,
)
    requires
        goes_on(algorithm, replies, replies.len() as int),
        0 <= index < estimates_of(replies).len(),
    ensures
        estimate_is_valid(algorithm, estimates_of(replies)[index]),
    decreases replies.len(),
{
    let rest = replies.drop_last();
    assert(goes_on(algorithm, rest, rest.len() as int)) by {
        assert forall|i: int| 0 <= i < rest.len() implies !stops(algorithm, #[trigger] rest[i]) by {
            assert(!stops(algorithm, replies[i]));
        }
    }
    assert(!stops(algorithm, replies[replies.len() - 1]));
    if index < estimates_of(rest).len() {
        law_reported_estimates_are_valid(algorithm, rest, index);
    }
}

/// A run that succeeds answers every request: it has one estimate for each report that was asked,
/// and gave the filter each GPS fix that was scheduled.
pub proof fn law_every_request_is_answered(
    algorithm: EgoEstimatorAlgorithm,
    actions: Seq<FilterAction>,
    replies: Seq<FilterReply>,
)
    requires
        is_transcript(algorithm, actions, replies),
        goes_on(algorithm, replies, replies.len() as int),
        replies.len() <= usize::MAX,
    ensures
        estimates_of(replies).len() == count_below(
            actions.len() as int,
            |i: int| actions[i] is Estimate,
        ),
        fixes_of(replies).attempted_fixes == count_below(
            actions.len() as int,
            |i: int| actions[i] is UpdateGps,
        ),
{
    lemma_answers(algorithm, actions, replies, replies.len() as int);
    assert(replies.take(replies.len() as int) =~= replies);
}

/// The times that the reports among `actions` are asked for: what each is about, and when it is
/// available.
pub open spec fn report_times(actions: Seq<FilterAction>) -> Seq<(i64, i64)>
    decreases actions.len(),
{
    if actions.len() == 0 {
        Seq::empty()
    } else {
        match actions.last() {
            FilterAction::Estimate { estimate_time_ns, available_time_ns, .. } => report_times(
                actions.drop_last(),
            ).push((estimate_time_ns, available_time_ns)),
            _ => report_times(actions.drop_last()),
        }
    }
}

/// The times of estimates.
pub open spec fn estimate_times(estimates: Seq<EgoStateEstimate>) -> Seq<(i64, i64)> {
    estimates.map_values(
        |estimate: EgoStateEstimate| (estimate.estimate_time_ns, estimate.available_time_ns),
    )
}

/// The estimates of a run that succeeds are for the times that were scheduled, in that order.
pub proof fn law_estimates_carry_the_scheduled_times(
    algorithm: EgoEstimatorAlgorithm,
    actions: Seq<FilterAction>,
    replies: Seq<FilterReply>,
)
    requires
        is_transcript(algorithm, actions, replies),
        goes_on(algorithm, replies, replies.len() as int),
    ensures
        estimate_times(estimates_of(replies)) == report_times(actions),
{
    lemma_times(algorithm, actions, replies, replies.len() as int);
    assert(replies.take(replies.len() as int) =~= replies);
    assert(actions.take(actions.len() as int) =~= actions);
}

proof fn lemma_times(
    algorithm: EgoEstimatorAlgorithm,
    actions: Seq<FilterAction>,
    replies: Seq<FilterReply>,
    count: int,
)
    requires
        is_transcript(algorithm, actions, replies),
        goes_on(algorithm, replies, replies.len() as int),
        0 <= count <= replies.len(),
    ensures
        estimate_times(estimates_of(replies.take(count))) == report_times(actions.take(count)),
    decreases count,
{
    let taken = replies.take(count);
    let asked = actions.take(count);
    if count > 0 {
        lemma_times(algorithm, actions, replies, count - 1);
        assert(taken.drop_last() =~= replies.take(count - 1));
        assert(asked.drop_last() =~= actions.take(count - 1));
        assert(taken.last() == replies[count - 1]);
        assert(asked.last() == actions[count - 1]);
        assert(!stops(algorithm, replies[count - 1]));
        assert(answers(actions[count - 1], replies[count - 1]));
    }
    assert(estimate_times(estimates_of(taken)) =~= report_times(asked));
}

proof fn lemma_report_is_asked(actions: Seq<FilterAction>, index: int) -> (place: int)
    requires
        0 <= index < report_times(actions).len(),
    ensures
        0 <= place < actions.len(),
        actions[place] is Estimate,
        report_times(actions)[index] == (
            actions[place]->estimate_time_ns,
            actions[place]->available_time_ns,
        ),
    decreases actions.len(),
{
    let rest = actions.drop_last();
    if index < report_times(rest).len() {
        lemma_report_is_asked(rest, index)
    } else {
        actions.len() - 1
    }
}

/// No estimate of a run that succeeds is available before the time that it is about.
pub proof fn law_no_estimate_is_available_before_its_time(
    config: EgoEstimatorConfig,
    measurements: Seq<EgoMeasurement>,
    replies: Seq<FilterReply>,
    index: int,
)
    requires
        measurements.len() <= usize::MAX,
        delivered_in_order(measurements, measurements.len() as int),
        is_transcript(config.algorithm, scheduled_actions(config, measurements), replies),
        goes_on(config.algorithm, replies, replies.len() as int),
        0 <= index < estimates_of(replies).len(),
    ensures
        estimates_of(replies)[index].estimate_time_ns
            <= estimates_of(replies)[index].available_time_ns,
{
    let actions = scheduled_actions(config, measurements);
    law_estimates_carry_the_scheduled_times(config.algorithm, actions, replies);
    assert(estimate_times(estimates_of(replies))[index] == report_times(actions)[index]);
    let place = lemma_report_is_asked(actions, index);
    law_estimates_wait_for_what_they_use(config, measurements, place);
}

/// What a run says of its filter names each state of the algorithm, gives each a variance, and has
/// a version exactly if the algorithm is GTSAM's.
pub proof fn law_assumptions_are_complete(
    filter: ActiveEstimator,
    algorithm: EgoEstimatorAlgorithm,
    settings: EstimatorSettings,
    assumptions: EstimatorAssumptions,
)
    requires
        filter.spec_runs(algorithm),
        filter.are_assumptions(algorithm, settings, assumptions),
    ensures
        assumptions.are_complete(),
{
}

proof fn lemma_answers(
    algorithm: EgoEstimatorAlgorithm,
    actions: Seq<FilterAction>,
    replies: Seq<FilterReply>,
    count: int,
)
    requires
        is_transcript(algorithm, actions, replies),
        goes_on(algorithm, replies, replies.len() as int),
        0 <= count <= replies.len() <= usize::MAX,
    ensures
        estimates_of(replies.take(count)).len() == count_below(
            count,
            |i: int| actions[i] is Estimate,
        ),
        fixes_of(replies.take(count)).attempted_fixes == count_below(
            count,
            |i: int| actions[i] is UpdateGps,
        ),
        fixes_of(replies.take(count)).attempted_fixes <= count,
    decreases count,
{
    if count > 0 {
        lemma_answers(algorithm, actions, replies, count - 1);
        let taken = replies.take(count);
        assert(taken.drop_last() =~= replies.take(count - 1));
        assert(taken.last() == replies[count - 1]);
        assert(!stops(algorithm, replies[count - 1]));
    }
}

} // verus!
