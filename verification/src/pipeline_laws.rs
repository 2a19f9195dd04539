//! What every replay of the processing stage guarantees.
use vstd::arithmetic::div_mod::*;
use vstd::prelude::*;

use crate::pipeline::{
    can_replay, cycle, cycle_fits, drained, initial_stage, is_due, is_finished, larger,
    lemma_cycle, lemma_offer, lemma_offer_due, offer, offer_due, ready, replayed, serve,
    service_start, stage_inv, times_fit, wake, DropPolicy, PipelineConfig, PipelineEvent, StageState,
};

verus! {

/// What the rest of a replay keeps, from any consistent stage on.
proof fn lemma_drained(events: Seq<PipelineEvent>, config: PipelineConfig, stage: StageState)
    requires
        config.queue_capacity > 0,
        stage_inv(events, config, stage),
    ensures
        ({
            let end = drained(events, config, stage);
            &&& stage_inv(events, config, end)
            &&& is_finished(events, end)
            &&& end.waited >= stage.waited
            &&& end.oldest >= stage.oldest
            &&& end.deepest >= stage.deepest
            &&& end.dropped >= stage.dropped
            &&& end.deepest >= 1 || stage.offered == events.len()
            &&& stage.offered == events.len() ==> end.dropped == stage.dropped
        }),
    decreases events.len() - stage.offered + stage.queue.len(),
{
    if !is_finished(events, stage) {
        lemma_cycle(events, config, stage);
        lemma_offer_growth(events, config, wake(events, stage));
        lemma_drained(events, config, cycle(events, config, stage));
    }
}

/// Offering events only ever adds to the counters of the report.
proof fn lemma_offer_growth(events: Seq<PipelineEvent>, config: PipelineConfig, stage: StageState)
    requires
        config.queue_capacity > 0,
        stage_inv(events, config, stage),
    ensures
        offer_due(events, config, stage).deepest >= stage.deepest,
        offer_due(events, config, stage).dropped >= stage.dropped,
        offer_due(events, config, stage).waited == stage.waited,
        offer_due(events, config, stage).oldest == stage.oldest,
        stage.offered == events.len() ==> offer_due(events, config, stage) == stage,
    decreases events.len() - stage.offered,
{
    if is_due(events, stage) {
        lemma_offer(events, config, stage);
        lemma_offer_growth(events, config, offer(config, stage, events[stage.offered]));
    }
}

/// Every event that arrives is either processed or dropped, and none is both.
pub proof fn law_every_event_is_accounted_for(events: Seq<PipelineEvent>, config: PipelineConfig)
    requires
        events.len() > 0 ==> config.queue_capacity > 0,
    ensures
        replayed(events, config).processed + replayed(events, config).dropped == events.len(),
        replayed(events, config).processed >= 0,
        replayed(events, config).dropped >= 0,
{
    if events.len() > 0 {
        lemma_drained(events, config, initial_stage());
    }
}

/// The queue holds something at some point of every replay that has events, and never more than
/// its capacity.
pub proof fn law_queue_respects_its_capacity(events: Seq<PipelineEvent>, config: PipelineConfig)
    requires
        events.len() > 0 ==> config.queue_capacity > 0,
    ensures
        0 <= replayed(events, config).deepest <= config.queue_capacity,
        events.len() > 0 ==> replayed(events, config).deepest >= 1,
{
    if events.len() > 0 {
        lemma_drained(events, config, initial_stage());
    }
}

/// No event is served before it arrives, so neither the waits nor the oldest age go below zero.
pub proof fn law_time_spent_is_not_negative(events: Seq<PipelineEvent>, config: PipelineConfig)
    requires
        events.len() > 0 ==> config.queue_capacity > 0,
    ensures
        replayed(events, config).waited >= 0,
        replayed(events, config).oldest >= 0,
{
    if events.len() > 0 {
        lemma_drained(events, config, initial_stage());
    }
}

proof fn lemma_offer_with_room(
    events: Seq<PipelineEvent>,
    config: PipelineConfig,
    stage: StageState,
)
    requires
        config.queue_capacity >= events.len(),
        config.queue_capacity > 0,
        stage_inv(events, config, stage),
        stage.dropped == 0,
    ensures
        offer_due(events, config, stage).dropped == 0,
    decreases events.len() - stage.offered,
{
    if is_due(events, stage) {
        lemma_offer(events, config, stage);
        lemma_offer_with_room(events, config, offer(config, stage, events[stage.offered]));
    }
}

proof fn lemma_drained_with_room(
    events: Seq<PipelineEvent>,
    config: PipelineConfig,
    stage: StageState,
)
    requires
        config.queue_capacity >= events.len(),
        config.queue_capacity > 0,
        stage_inv(events, config, stage),
        stage.dropped == 0,
    ensures
        drained(events, config, stage).dropped == 0,
    decreases events.len() - stage.offered + stage.queue.len(),
{
    if !is_finished(events, stage) {
        lemma_cycle(events, config, stage);
        lemma_offer_with_room(events, config, wake(events, stage));
        lemma_drained_with_room(events, config, cycle(events, config, stage));
    }
}

/// A queue with room for all events drops none, whatever the policy and however slow the stage.
pub proof fn law_enough_room_drops_nothing(events: Seq<PipelineEvent>, config: PipelineConfig)
    requires
        config.queue_capacity >= events.len(),
    ensures
        replayed(events, config).dropped == 0,
        replayed(events, config).processed == events.len(),
{
    if events.len() > 0 {
        lemma_drained_with_room(events, config, initial_stage());
        lemma_drained(events, config, initial_stage());
    }
}

/// What a full queue does with an arrival: dropping the newest leaves the queue as it was,
/// dropping the oldest removes exactly the front, and keeping the latest leaves the arrival
/// alone in the queue. Under the last two the arrival itself always stays.
pub proof fn law_full_queue_follows_its_policy(
    config: PipelineConfig,
    stage: StageState,
    event: PipelineEvent,
)
    requires
        config.queue_capacity > 0,
        stage.queue.len() == config.queue_capacity,
    ensures
        ({
            let after = offer(config, stage, event);
            match config.drop_policy {
                DropPolicy::DropNewest => after.queue == stage.queue && after.dropped
                    == stage.dropped + 1,
                DropPolicy::DropOldest => after.queue.drop_last() == stage.queue.drop_first()
                    && after.queue.last() == event && after.dropped == stage.dropped + 1,
                DropPolicy::KeepLatest => after.queue == seq![event] && after.dropped
                    == stage.dropped + stage.queue.len(),
            }
        }),
{
}

/// A queue with room keeps what it holds, in order, and the arrival joins at the back.
pub proof fn law_queue_with_room_keeps_everything(
    config: PipelineConfig,
    stage: StageState,
    event: PipelineEvent,
)
    requires
        stage.queue.len() < config.queue_capacity,
    ensures
        offer(config, stage, event).queue == stage.queue.push(event),
        offer(config, stage, event).dropped == stage.dropped,
{
}

/// Arrivals far enough apart for the stage: the first no earlier than time zero, each later
/// than the one before and no earlier than the end of that one's processing.
pub open spec fn well_spaced(events: Seq<PipelineEvent>, config: PipelineConfig) -> bool {
    &&& events.len() > 0 ==> events[0].arrival_time_ns >= 0
    &&& forall|i: int, j: int|
        #![trigger events[i], events[j]]
        0 <= i && j == i + 1 && j < events.len() ==> {
            &&& events[i].arrival_time_ns < events[j].arrival_time_ns
            &&& events[i].arrival_time_ns + config.spec_processing_time_ns(events[i].sensor)
                <= events[j].arrival_time_ns
        }
}

/// The longest processing time among `events`, or zero if all are below it.
pub open spec fn is_longest_service(
    longest: int,
    events: Seq<PipelineEvent>,
    config: PipelineConfig,
) -> bool {
    &&& longest >= 0
    &&& forall|i: int|
        0 <= i < events.len() ==> config.spec_processing_time_ns(
            (#[trigger] events[i]).sensor,
        ) <= longest
    &&& longest == 0 || exists|i: int|
        0 <= i < events.len() && config.spec_processing_time_ns((#[trigger] events[i]).sensor)
            == longest
}

proof fn lemma_idle(events: Seq<PipelineEvent>, config: PipelineConfig, stage: StageState)
    requires
        config.queue_capacity > 0,
        stage_inv(events, config, stage),
        well_spaced(events, config),
        stage.queue.len() == 0,
        stage.offered < events.len() ==> stage.now <= events[stage.offered].arrival_time_ns,
        stage.dropped == 0,
        stage.waited == 0,
        stage.deepest <= 1,
        is_longest_service(stage.oldest, events.take(stage.offered), config),
    ensures
        drained(events, config, stage).dropped == 0,
        drained(events, config, stage).waited == 0,
        drained(events, config, stage).deepest <= 1,
        is_longest_service(drained(events, config, stage).oldest, events, config),
    decreases events.len() - stage.offered,
{
    let done = stage.offered;
    if is_finished(events, stage) {
        assert(events.take(done) =~= events);
    } else {
        lemma_cycle(events, config, stage);
        let event = events[done];
        let awake = wake(events, stage);
        assert(awake.now == event.arrival_time_ns);
        assert(is_due(events, awake));
        let loaded = offer(config, awake, event);
        if done + 1 < events.len() {
            assert(events[done + 1].arrival_time_ns > event.arrival_time_ns);
        }
        assert(!is_due(events, loaded));
        assert(offer_due(events, config, loaded) == loaded);
        assert(offer_due(events, config, awake) == loaded);
        assert(loaded.queue =~= seq![event]);
        let next = cycle(events, config, stage);
        assert(next == serve(config, loaded));
        let before = events.take(done);
        let after = events.take(done + 1);
        assert(after =~= before.push(event));
        let service = config.spec_processing_time_ns(event.sensor) as int;
        assert(next.oldest == larger(stage.oldest, service));
        assert(is_longest_service(next.oldest, after, config)) by {
            assert forall|i: int| 0 <= i < after.len() implies config.spec_processing_time_ns(
                (#[trigger] after[i]).sensor,
            ) <= next.oldest by {
                if i < done {
                    assert(before[i] == after[i]);
                }
            }
            if next.oldest == service {
                assert(after[done] == event);
            } else if next.oldest != 0 {
                let i = choose|i: int|
                    0 <= i < before.len() && config.spec_processing_time_ns(
                        (#[trigger] before[i]).sensor,
                    ) == stage.oldest;
                assert(after[i] == before[i]);
            }
        }
        lemma_idle(events, config, next);
    }
}

/// A stage that is done with each event before the next arrives processes them all, makes none
/// wait, queues one at a time, and ages each by its own processing time alone.
pub proof fn law_idle_stage_has_no_wait(events: Seq<PipelineEvent>, config: PipelineConfig)
    requires
        config.queue_capacity > 0,
        well_spaced(events, config),
    ensures
        replayed(events, config).processed == events.len(),
        replayed(events, config).dropped == 0,
        replayed(events, config).waited == 0,
        replayed(events, config).deepest <= 1,
        is_longest_service(replayed(events, config).oldest, events, config),
{
    if events.len() > 0 {
        lemma_idle(events, config, initial_stage());
        lemma_drained(events, config, initial_stage());
    }
}

/// How many of `count` simultaneous arrivals an empty queue ends up holding.
pub open spec fn kept_of_burst(config: PipelineConfig, count: int) -> int {
    if count <= config.queue_capacity {
        count
    } else {
        match config.drop_policy {
            DropPolicy::DropNewest | DropPolicy::DropOldest => config.queue_capacity as int,
            DropPolicy::KeepLatest => (count - 1) % (config.queue_capacity as int) + 1,
        }
    }
}

/// One more simultaneous arrival changes the number kept as offering it does.
proof fn lemma_kept_of_burst(config: PipelineConfig, count: int)
    requires
        config.queue_capacity > 0,
        count >= 0,
    ensures
        ({
            let kept = kept_of_burst(config, count);
            let next = kept_of_burst(config, count + 1);
            &&& 0 <= kept <= config.queue_capacity
            &&& kept < config.queue_capacity ==> next == kept + 1
            &&& kept == config.queue_capacity ==> next == match config.drop_policy {
                DropPolicy::DropNewest | DropPolicy::DropOldest => kept,
                DropPolicy::KeepLatest => 1int,
            }
        }),
{
    let capacity = config.queue_capacity as int;
    if count > 0 {
        lemma_fundamental_div_mod(count - 1, capacity);
        lemma_mod_bound(count - 1, capacity);
        let quotient = (count - 1) / capacity;
        let rest = (count - 1) % capacity;
        if rest + 1 < capacity {
            assert(count == quotient * capacity + (rest + 1)) by (nonlinear_arith)
                requires
                    count - 1 == capacity * quotient + rest,
            ;
            lemma_fundamental_div_mod_converse(count, capacity, quotient, rest + 1);
        } else {
            assert(count == (quotient + 1) * capacity + 0) by (nonlinear_arith)
                requires
                    count - 1 == capacity * quotient + rest,
                    rest + 1 == capacity,
            ;
            lemma_fundamental_div_mod_converse(count, capacity, quotient + 1, 0);
        }
        if count <= capacity {
            lemma_small_mod((count - 1) as nat, capacity as nat);
            if count == capacity {
                lemma_mod_self_0(capacity);
            }
        }
    }
}

proof fn lemma_offer_burst(
    events: Seq<PipelineEvent>,
    config: PipelineConfig,
    stage: StageState,
    time: i64,
)
    requires
        config.queue_capacity > 0,
        stage_inv(events, config, stage),
        forall|i: int| 0 <= i < events.len() ==> (#[trigger] events[i]).arrival_time_ns == time,
        stage.now >= time,
        stage.queue.len() == kept_of_burst(config, stage.offered),
        stage.processed == 0,
    ensures
        offer_due(events, config, stage).offered == events.len(),
        offer_due(events, config, stage).queue.len() == kept_of_burst(config, events.len() as int),
        offer_due(events, config, stage).processed == 0,
    decreases events.len() - stage.offered,
{
    if is_due(events, stage) {
        lemma_offer(events, config, stage);
        lemma_kept_of_burst(config, stage.offered);
        lemma_offer_burst(events, config, offer(config, stage, events[stage.offered]), time);
    } else {
        if stage.offered < events.len() {
            assert(events[stage.offered].arrival_time_ns == time);
        }
    }
}

/// A burst of simultaneous arrivals is cut down to what the queue keeps of it: the capacity when
/// the newest or the oldest are dropped, and what came since the last overflow when only the
/// latest is kept. Exactly those events are processed and the rest are dropped.
pub proof fn law_burst_is_cut_to_the_queue(
    events: Seq<PipelineEvent>,
    config: PipelineConfig,
    time: i64,
)
    requires
        config.queue_capacity > 0,
        forall|i: int| 0 <= i < events.len() ==> (#[trigger] events[i]).arrival_time_ns == time,
    ensures
        replayed(events, config).processed == kept_of_burst(config, events.len() as int),
        replayed(events, config).dropped == events.len() - kept_of_burst(
            config,
            events.len() as int,
        ),
{
    if events.len() > 0 {
        let start = initial_stage();
        assert(events[0].arrival_time_ns == time);
        lemma_cycle(events, config, start);
        lemma_offer_burst(events, config, wake(events, start), time);
        lemma_drained(events, config, cycle(events, config, start));
    }
}

proof fn lemma_times_fit(
    events: Seq<PipelineEvent>,
    config: PipelineConfig,
    stage: StageState,
    span: int,
    busy: int,
)
    requires
        config.queue_capacity > 0,
        stage_inv(events, config, stage),
        moderate_times(events, config, span, busy),
        queue_within(stage.queue, span),
        0 <= stage.now <= span + stage.processed * busy,
        0 <= stage.waited <= stage.processed * (2 * span + events.len() * busy),
    ensures
        times_fit(events, config, stage),
    decreases events.len() - stage.offered + stage.queue.len(),
{
    if !is_finished(events, stage) {
        lemma_cycle(events, config, stage);
        let awake = wake(events, stage);
        let count = events.len() as int;
        let served = stage.processed;
        assert(0 <= served * busy) by (nonlinear_arith)
            requires
                served >= 0,
                busy >= 0,
        ;
        lemma_offer_keeps_span(events, config, awake, span);
        lemma_offer_due(events, config, awake);
        let loaded = ready(events, config, stage);
        let event = loaded.queue[0];
        let arrival = event.arrival_time_ns as int;
        let service = config.spec_processing_time_ns(event.sensor) as int;
        assert(-span <= arrival <= span);
        assert(0 <= service <= busy);
        let next = cycle(events, config, stage);
        assert(served + 1 <= count);
        assert((served + 1) * busy == served * busy + busy) by (nonlinear_arith);
        assert((served + 1) * busy <= count * busy) by (nonlinear_arith)
            requires
                served + 1 <= count,
                busy >= 0,
        ;
        let longest = 2 * span + count * busy;
        assert((served + 1) * longest == served * longest + longest) by (nonlinear_arith);
        assert((served + 1) * longest <= count * longest) by (nonlinear_arith)
            requires
                served + 1 <= count,
                longest >= 0,
        ;
        assert(longest <= count * longest) by (nonlinear_arith)
            requires
                1 <= count,
                longest >= 0,
        ;
        assert(0 <= service_start(loaded) - arrival <= longest);
        assert(next.now <= span + next.processed * busy);
        assert(cycle_fits(events, config, stage));
        assert(queue_within(next.queue, span));
        lemma_times_fit(events, config, next, span, busy);
    }
}

/// Whether every queued event arrived within `span` of time zero.
spec fn queue_within(queue: Seq<PipelineEvent>, span: int) -> bool {
    forall|i: int| 0 <= i < queue.len() ==> -span <= (#[trigger] queue[i]).arrival_time_ns <= span
}

proof fn lemma_offer_keeps_span(
    events: Seq<PipelineEvent>,
    config: PipelineConfig,
    stage: StageState,
    span: int,
)
    requires
        config.queue_capacity > 0,
        stage_inv(events, config, stage),
        forall|i: int|
            0 <= i < events.len() ==> -span <= (#[trigger] events[i]).arrival_time_ns <= span,
        queue_within(stage.queue, span),
    ensures
        queue_within(offer_due(events, config, stage).queue, span),
    decreases events.len() - stage.offered,
{
    if is_due(events, stage) {
        lemma_offer(events, config, stage);
        let event = events[stage.offered];
        assert(-span <= event.arrival_time_ns <= span);
        lemma_offer_keeps_span(events, config, offer(config, stage, event), span);
    }
}

/// Arrivals within `span` of time zero and processing times up to `busy`, few enough of them
/// that all waits together are representable.
pub open spec fn moderate_times(
    events: Seq<PipelineEvent>,
    config: PipelineConfig,
    span: int,
    busy: int,
) -> bool {
    &&& 0 <= span
    &&& 0 <= config.imu_processing_ns <= busy
    &&& 0 <= config.gps_processing_ns <= busy
    &&& 0 <= config.camera_processing_ns <= busy
    &&& 0 <= config.lidar_processing_ns <= busy
    &&& forall|i: int|
        0 <= i < events.len() ==> -span <= (#[trigger] events[i]).arrival_time_ns <= span
    &&& events.len() * (2 * span + events.len() * busy) <= i64::MAX
}

/// A replay of moderately many events at moderate times can always be carried out.
pub proof fn law_moderate_times_can_be_replayed(
    events: Seq<PipelineEvent>,
    config: PipelineConfig,
    span: int,
    busy: int,
)
    requires
        config.queue_capacity > 0,
        moderate_times(events, config, span, busy),
    ensures
        can_replay(events, config),
{
    if events.len() > 0 {
        lemma_times_fit(events, config, initial_stage(), span, busy);
    }
}

} // verus!
