//! What the report of a replay says, in terms of when events are served.
use vstd::prelude::*;

use crate::pipeline::{
    cycle, drained, initial_stage, is_due, is_finished, is_report, lemma_cycle, lemma_offer,
    lemma_offer_due, offer, offer_due, ready, replayed, serve, service_start, stage_inv, wake,
    DropPolicy, PipelineConfig, PipelineEvent, PipelineReport, SensorKind, StageState,
};
use crate::pipeline_laws::{law_every_event_is_accounted_for, law_queue_respects_its_capacity};

verus! {

/// How long the stage is busy with an event.
pub open spec fn busy_ns(config: PipelineConfig, event: PipelineEvent) -> int {
    match event.sensor {
        SensorKind::Imu => config.imu_processing_ns as int,
        SensorKind::Gps => config.gps_processing_ns as int,
        SensorKind::Camera => config.camera_processing_ns as int,
        SensorKind::Lidar => config.lidar_processing_ns as int,
    }
}

/// The stage is busy with each event for the time that is configured for its sensor.
pub proof fn law_each_sensor_has_its_own_time(config: PipelineConfig, event: PipelineEvent)
    ensures
        config.spec_processing_time_ns(event.sensor) == busy_ns(config, event),
{
}

// A queue with room for everything.

/// When the event at `index` is served if none is ever dropped: as soon as it has arrived and the
/// one before it is done. The stage opens at time zero.
pub open spec fn start_in_turn(
    events: Seq<PipelineEvent>,
    config: PipelineConfig,
    index: int,
) -> int
    decreases index,
{
    let arrival = events[index].arrival_time_ns as int;
    let free = if index <= 0 {
        0
    } else {
        start_in_turn(events, config, index - 1) + busy_ns(config, events[index - 1])
    };
    if free >= arrival {
        free
    } else {
        arrival
    }
}

/// The sum of what the first `count` events wait.
pub open spec fn waits_in_turn(
    events: Seq<PipelineEvent>,
    config: PipelineConfig,
    count: int,
) -> int
    decreases count,
{
    if count <= 0 {
        0
    } else {
        waits_in_turn(events, config, count - 1) + (start_in_turn(events, config, count - 1)
            - events[count - 1].arrival_time_ns)
    }
}

/// How old the event at `index` is when it is done.
pub open spec fn age_in_turn(
    events: Seq<PipelineEvent>,
    config: PipelineConfig,
    index: int,
) -> int {
    start_in_turn(events, config, index) + busy_ns(config, events[index])
        - events[index].arrival_time_ns
}

/// Whether `age` is the largest age of the first `count` events, or zero if all are below it.
pub open spec fn is_largest_age(
    events: Seq<PipelineEvent>,
    config: PipelineConfig,
    count: int,
    age: int,
) -> bool {
    &&& age >= 0
    &&& forall|i: int| 0 <= i < count ==> #[trigger] age_in_turn(events, config, i) <= age
    &&& age == 0 || exists|i: int|
        0 <= i < count && #[trigger] age_in_turn(events, config, i) == age
}

/// Whether all events from `first` to `last` have arrived when the first of them is served.
pub open spec fn queue_together(
    events: Seq<PipelineEvent>,
    config: PipelineConfig,
    first: int,
    last: int,
) -> bool {
    &&& 0 <= first <= last < events.len()
    &&& forall|i: int|
        first <= i <= last ==> (#[trigger] events[i]).arrival_time_ns <= start_in_turn(
            events,
            config,
            first,
        )
}

/// Whether no processing time is negative.
pub open spec fn takes_time(config: PipelineConfig) -> bool {
    &&& config.imu_processing_ns >= 0
    &&& config.gps_processing_ns >= 0
    &&& config.camera_processing_ns >= 0
    &&& config.lidar_processing_ns >= 0
}

/// Whether `depth` is the length of the longest run of events among those served first to `count`
/// that queue together.
spec fn is_deepest(
    events: Seq<PipelineEvent>,
    config: PipelineConfig,
    count: int,
    depth: int,
) -> bool {
    &&& forall|first: int, last: int|
        first < count && #[trigger] queue_together(events, config, first, last) ==> last - first
            + 1 <= depth
    &&& depth == 0 || exists|first: int, last: int|
        first < count && #[trigger] queue_together(events, config, first, last) && last - first + 1
            == depth
}

/// When the stage is free after `count` events.
spec fn free_at(events: Seq<PipelineEvent>, config: PipelineConfig, count: int) -> int {
    if count <= 0 {
        0
    } else {
        start_in_turn(events, config, count - 1) + busy_ns(config, events[count - 1])
    }
}

/// A stage that has dropped nothing.
spec fn is_in_turn(
    events: Seq<PipelineEvent>,
    config: PipelineConfig,
    stage: StageState,
) -> bool {
    let done = stage.processed;
    &&& stage_inv(events, config, stage)
    &&& stage.dropped == 0
    &&& stage.queue == events.subrange(done, stage.offered)
    &&& stage.now == free_at(events, config, done)
    &&& stage.waited == waits_in_turn(events, config, done)
    &&& is_largest_age(events, config, done, stage.oldest)
}

proof fn lemma_load_with_room(
    events: Seq<PipelineEvent>,
    config: PipelineConfig,
    stage: StageState,
)
    requires
        config.queue_capacity >= events.len(),
        config.queue_capacity > 0,
        stage_inv(events, config, stage),
        stage.dropped == 0,
        stage.queue == events.subrange(stage.processed, stage.offered),
    ensures
        ({
            let after = offer_due(events, config, stage);
            &&& after.dropped == 0
            &&& after.queue == events.subrange(after.processed, after.offered)
            &&& after.deepest == (if after.offered > stage.offered && after.queue.len()
                > stage.deepest {
                after.queue.len() as int
            } else {
                stage.deepest
            })
            &&& forall|i: int|
                stage.offered <= i < after.offered ==> (#[trigger] events[i]).arrival_time_ns
                    <= stage.now
        }),
    decreases events.len() - stage.offered,
{
    if is_due(events, stage) {
        lemma_offer(events, config, stage);
        let next = offer(config, stage, events[stage.offered]);
        assert(next.queue =~= events.subrange(next.processed, next.offered));
        lemma_load_with_room(events, config, next);
        lemma_offer_due(events, config, next);
    }
}

proof fn lemma_serve_in_turn(
    events: Seq<PipelineEvent>,
    config: PipelineConfig,
    stage: StageState,
)
    requires
        config.queue_capacity >= events.len(),
        config.queue_capacity > 0,
        is_in_turn(events, config, stage),
        !is_finished(events, stage),
    ensures
        is_in_turn(events, config, cycle(events, config, stage)),
        cycle(events, config, stage).processed == stage.processed + 1,
{
    let done = stage.processed;
    let awake = wake(events, stage);
    lemma_cycle(events, config, stage);
    lemma_load_with_room(events, config, awake);
    lemma_offer_due(events, config, awake);
    let loaded = ready(events, config, stage);
    let next = cycle(events, config, stage);
    assert(loaded.queue[0] == events[done]);
    assert(service_start(loaded) == start_in_turn(events, config, done));
    assert(next == serve(config, loaded));
    assert(next.queue =~= events.subrange(done + 1, next.offered));
    let age = age_in_turn(events, config, done);
    assert(is_largest_age(events, config, done + 1, next.oldest)) by {
        if next.oldest == stage.oldest && stage.oldest != 0 {
            let i = choose|i: int|
                0 <= i < done && #[trigger] age_in_turn(events, config, i) == stage.oldest;
            assert(age_in_turn(events, config, i) == next.oldest);
        }
        assert(age <= next.oldest);
    }
}

proof fn lemma_drained_in_turn(
    events: Seq<PipelineEvent>,
    config: PipelineConfig,
    stage: StageState,
)
    requires
        config.queue_capacity >= events.len(),
        config.queue_capacity > 0,
        is_in_turn(events, config, stage),
    ensures
        is_in_turn(events, config, drained(events, config, stage)),
        is_finished(events, drained(events, config, stage)),
    decreases events.len() - stage.offered + stage.queue.len(),
{
    if !is_finished(events, stage) {
        lemma_cycle(events, config, stage);
        lemma_serve_in_turn(events, config, stage);
        lemma_drained_in_turn(events, config, cycle(events, config, stage));
    }
}

/// With room for all events, each is served in its turn, whatever the policy: the waits are the
/// sum of the times from arrival to service, and the oldest message is the one that took longest
/// from its arrival until it was done.
pub proof fn law_waits_add_up(events: Seq<PipelineEvent>, config: PipelineConfig)
    requires
        config.queue_capacity >= events.len(),
    ensures
        replayed(events, config).processed == events.len(),
        replayed(events, config).dropped == 0,
        replayed(events, config).waited == waits_in_turn(events, config, events.len() as int),
        is_largest_age(
            events,
            config,
            events.len() as int,
            replayed(events, config).oldest,
        ),
{
    if events.len() > 0 {
        assert(initial_stage().queue =~= events.subrange(0, 0));
        lemma_drained_in_turn(events, config, initial_stage());
    }
}

spec fn is_in_turn_and_deep(
    events: Seq<PipelineEvent>,
    config: PipelineConfig,
    stage: StageState,
) -> bool {
    &&& is_in_turn(events, config, stage)
    &&& is_deepest(events, config, stage.processed, stage.deepest)
    &&& forall|i: int|
        stage.processed <= i < stage.offered ==> (#[trigger] events[i]).arrival_time_ns
            <= stage.now
}

proof fn lemma_depth(events: Seq<PipelineEvent>, config: PipelineConfig, stage: StageState)
    requires
        config.queue_capacity >= events.len(),
        config.queue_capacity > 0,
        takes_time(config),
        is_in_turn_and_deep(events, config, stage),
        !is_finished(events, stage),
    ensures
        is_in_turn_and_deep(events, config, cycle(events, config, stage)),
{
    let done = stage.processed;
    let awake = wake(events, stage);
    lemma_serve_in_turn(events, config, stage);
    lemma_cycle(events, config, stage);
    lemma_load_with_room(events, config, awake);
    lemma_offer_due(events, config, awake);
    let loaded = ready(events, config, stage);
    let next = cycle(events, config, stage);
    let start = start_in_turn(events, config, done);
    let last = loaded.offered - 1;
    assert(loaded.queue[0] == events[done]);
    assert(start == loaded.now);
    assert(queue_together(events, config, done, last));
    assert(loaded.deepest >= last - done + 1);
    assert(is_deepest(events, config, done + 1, next.deepest)) by {
        assert forall|first: int, end: int|
            first < done + 1 && #[trigger] queue_together(events, config, first, end) implies end
            - first + 1 <= next.deepest by {
            if first == done && end > last {
                assert(events[loaded.offered].arrival_time_ns <= start);
            }
        }
        if next.deepest == stage.deepest && stage.deepest != 0 {
            let (first, end) = choose|first: int, end: int|
                first < done && #[trigger] queue_together(events, config, first, end) && end - first
                    + 1 == stage.deepest;
            assert(queue_together(events, config, first, end));
        }
    }
    assert forall|i: int| done + 1 <= i < next.offered implies (
    #[trigger] events[i]).arrival_time_ns <= next.now by {
        if i < stage.offered {
            assert(events[i].arrival_time_ns <= stage.now);
        }
    }
}

proof fn lemma_drained_depth(
    events: Seq<PipelineEvent>,
    config: PipelineConfig,
    stage: StageState,
)
    requires
        config.queue_capacity >= events.len(),
        config.queue_capacity > 0,
        takes_time(config),
        is_in_turn_and_deep(events, config, stage),
    ensures
        is_in_turn_and_deep(events, config, drained(events, config, stage)),
        is_finished(events, drained(events, config, stage)),
    decreases events.len() - stage.offered + stage.queue.len(),
{
    if !is_finished(events, stage) {
        lemma_cycle(events, config, stage);
        lemma_depth(events, config, stage);
        lemma_drained_depth(events, config, cycle(events, config, stage));
    }
}

/// With room for all events, the deepest queue is the longest run of events that have all arrived
/// when the first of them is served.
pub proof fn law_depth_is_the_longest_run(events: Seq<PipelineEvent>, config: PipelineConfig)
    requires
        config.queue_capacity >= events.len(),
        takes_time(config),
    ensures
        forall|first: int, last: int| #[trigger]
            queue_together(events, config, first, last) ==> last - first + 1 <= replayed(
                events,
                config,
            ).deepest,
        events.len() > 0 ==> exists|first: int, last: int|
            #[trigger] queue_together(events, config, first, last) && last - first + 1 == replayed(
                events,
                config,
            ).deepest,
        events.len() == 0 ==> replayed(events, config).deepest == 0,
{
    if events.len() > 0 {
        assert(initial_stage().queue =~= events.subrange(0, 0));
        lemma_drained_depth(events, config, initial_stage());
        assert(queue_together(events, config, 0, 0));
    }
}

proof fn lemma_same_load(
    events: Seq<PipelineEvent>,
    a: PipelineConfig,
    b: PipelineConfig,
    stage: StageState,
)
    requires
        a.queue_capacity >= events.len(),
        a.queue_capacity > 0,
        b.queue_capacity >= events.len(),
        b.queue_capacity > 0,
        stage_inv(events, a, stage),
        stage_inv(events, b, stage),
    ensures
        offer_due(events, a, stage) == offer_due(events, b, stage),
    decreases events.len() - stage.offered,
{
    if is_due(events, stage) {
        lemma_offer(events, a, stage);
        lemma_offer(events, b, stage);
        lemma_same_load(events, a, b, offer(a, stage, events[stage.offered]));
    }
}

/// Whether two stages differ in what they do with a full queue, and in how much it holds, alone.
pub open spec fn are_equally_fast(a: PipelineConfig, b: PipelineConfig) -> bool {
    &&& a.imu_processing_ns == b.imu_processing_ns
    &&& a.gps_processing_ns == b.gps_processing_ns
    &&& a.camera_processing_ns == b.camera_processing_ns
    &&& a.lidar_processing_ns == b.lidar_processing_ns
}

proof fn lemma_same_end(
    events: Seq<PipelineEvent>,
    a: PipelineConfig,
    b: PipelineConfig,
    stage: StageState,
)
    requires
        are_equally_fast(a, b),
        a.queue_capacity >= events.len(),
        a.queue_capacity > 0,
        b.queue_capacity >= events.len(),
        b.queue_capacity > 0,
        stage_inv(events, a, stage),
        stage_inv(events, b, stage),
    ensures
        drained(events, a, stage) == drained(events, b, stage),
    decreases events.len() - stage.offered + stage.queue.len(),
{
    if !is_finished(events, stage) {
        lemma_cycle(events, a, stage);
        lemma_cycle(events, b, stage);
        lemma_same_load(events, a, b, wake(events, stage));
        lemma_same_end(events, a, b, cycle(events, a, stage));
    }
}

/// As long as the queue has room for all events, neither the policy nor the room beyond that makes
/// a difference.
pub proof fn law_policies_differ_only_at_a_full_queue(
    events: Seq<PipelineEvent>,
    a: PipelineConfig,
    b: PipelineConfig,
)
    requires
        are_equally_fast(a, b),
        a.queue_capacity >= events.len(),
        b.queue_capacity >= events.len(),
    ensures
        replayed(events, a) == replayed(events, b),
{
    if events.len() > 0 {
        lemma_same_end(events, a, b, initial_stage());
    }
}

proof fn lemma_load_without_drops(
    events: Seq<PipelineEvent>,
    tight: PipelineConfig,
    roomy: PipelineConfig,
    stage: StageState,
)
    requires
        tight.queue_capacity > 0,
        roomy.queue_capacity >= events.len(),
        roomy.queue_capacity > 0,
        stage_inv(events, tight, stage),
        stage_inv(events, roomy, stage),
        offer_due(events, tight, stage).dropped == stage.dropped,
    ensures
        offer_due(events, tight, stage) == offer_due(events, roomy, stage),
    decreases events.len() - stage.offered,
{
    if is_due(events, stage) {
        lemma_offer(events, tight, stage);
        lemma_offer(events, roomy, stage);
        let next = offer(tight, stage, events[stage.offered]);
        lemma_drops_grow(events, tight, next);
        lemma_load_without_drops(events, tight, roomy, next);
    }
}

/// A stage that has dropped something has had a full queue.
spec fn drops_when_full(config: PipelineConfig, stage: StageState) -> bool {
    stage.dropped > 0 ==> stage.deepest == config.queue_capacity
}

proof fn lemma_drops_grow(
    events: Seq<PipelineEvent>,
    config: PipelineConfig,
    stage: StageState,
)
    requires
        config.queue_capacity > 0,
        stage_inv(events, config, stage),
    ensures
        offer_due(events, config, stage).dropped >= stage.dropped,
        drops_when_full(config, stage) ==> drops_when_full(
            config,
            offer_due(events, config, stage),
        ),
    decreases events.len() - stage.offered,
{
    if is_due(events, stage) {
        lemma_offer(events, config, stage);
        lemma_drops_grow(events, config, offer(config, stage, events[stage.offered]));
    }
}

proof fn lemma_drops_to_the_end(
    events: Seq<PipelineEvent>,
    config: PipelineConfig,
    stage: StageState,
)
    requires
        config.queue_capacity > 0,
        stage_inv(events, config, stage),
        drops_when_full(config, stage),
    ensures
        drained(events, config, stage).dropped >= stage.dropped,
        drops_when_full(config, drained(events, config, stage)),
    decreases events.len() - stage.offered + stage.queue.len(),
{
    if !is_finished(events, stage) {
        lemma_cycle(events, config, stage);
        lemma_drops_grow(events, config, wake(events, stage));
        lemma_drops_to_the_end(events, config, cycle(events, config, stage));
    }
}

proof fn lemma_end_without_drops(
    events: Seq<PipelineEvent>,
    tight: PipelineConfig,
    roomy: PipelineConfig,
    stage: StageState,
)
    requires
        are_equally_fast(tight, roomy),
        tight.queue_capacity > 0,
        roomy.queue_capacity >= events.len(),
        roomy.queue_capacity > 0,
        stage_inv(events, tight, stage),
        stage_inv(events, roomy, stage),
        drops_when_full(tight, stage),
        drained(events, tight, stage).dropped == stage.dropped,
    ensures
        drained(events, tight, stage) == drained(events, roomy, stage),
    decreases events.len() - stage.offered + stage.queue.len(),
{
    if !is_finished(events, stage) {
        lemma_cycle(events, tight, stage);
        lemma_cycle(events, roomy, stage);
        lemma_drops_grow(events, tight, wake(events, stage));
        let next = cycle(events, tight, stage);
        lemma_drops_to_the_end(events, tight, next);
        lemma_load_without_drops(events, tight, roomy, wake(events, stage));
        lemma_end_without_drops(events, tight, roomy, next);
    }
}

/// A replay that drops nothing is the same as one with room for all events and any policy; and one
/// that drops something has had its queue full.
pub proof fn law_room_does_not_matter_until_something_is_dropped(
    events: Seq<PipelineEvent>,
    tight: PipelineConfig,
    roomy: PipelineConfig,
)
    requires
        are_equally_fast(tight, roomy),
        events.len() > 0,
        tight.queue_capacity > 0,
        roomy.queue_capacity >= events.len(),
    ensures
        replayed(events, tight).dropped == 0 ==> replayed(events, tight) == replayed(
            events,
            roomy,
        ),
        replayed(events, tight).dropped > 0 ==> replayed(events, tight).deepest
            == tight.queue_capacity,
{
    lemma_drops_to_the_end(events, tight, initial_stage());
    if replayed(events, tight).dropped == 0 {
        lemma_end_without_drops(events, tight, roomy, initial_stage());
    }
}

// Any queue.

/// An event that was served, by its place, and when that began.
pub struct Service {
    pub event: int,
    pub start: int,
}

/// When a service is over.
pub open spec fn end_of(
    events: Seq<PipelineEvent>,
    config: PipelineConfig,
    service: Service,
) -> int {
    service.start + busy_ns(config, events[service.event])
}

/// When the stage is free for the service at `place`.
pub open spec fn free_before(
    events: Seq<PipelineEvent>,
    config: PipelineConfig,
    log: Seq<Service>,
    place: int,
) -> int {
    if place <= 0 {
        0
    } else {
        end_of(events, config, log[place - 1])
    }
}

/// The place of the event before those that the service at `place` may be for.
pub open spec fn event_before(log: Seq<Service>, place: int) -> int {
    if place <= 0 {
        -1
    } else {
        log[place - 1].event
    }
}

/// Whether the service at `place` is in order: of a later event than the one before it, not before
/// that one is done nor before the event has arrived, and not after both unless it took the
/// arrival of an event in between to wake the stage.
pub open spec fn is_served_in_order(
    events: Seq<PipelineEvent>,
    config: PipelineConfig,
    log: Seq<Service>,
    place: int,
) -> bool {
    let service = log[place];
    let free = free_before(events, config, log, place);
    &&& event_before(log, place) < service.event < events.len()
    &&& 0 <= service.event
    &&& service.start >= free
    &&& service.start >= events[service.event].arrival_time_ns
    &&& service.start == free || exists|waking: int|
        event_before(log, place) < waking <= service.event && (
        #[trigger] events[waking]).arrival_time_ns == service.start
}

/// The sum of what the first `count` events in `log` waited.
pub open spec fn waits_in(
    events: Seq<PipelineEvent>,
    log: Seq<Service>,
    count: int,
) -> int
    decreases count,
{
    if count <= 0 {
        0
    } else {
        waits_in(events, log, count - 1) + (log[count - 1].start - events[log[count
            - 1].event].arrival_time_ns)
    }
}

/// How old the event of a service is when it is done.
pub open spec fn age_of(
    events: Seq<PipelineEvent>,
    config: PipelineConfig,
    service: Service,
) -> int {
    end_of(events, config, service) - events[service.event].arrival_time_ns
}

/// Whether `log` tells how a replay that ends in `end` went.
pub open spec fn is_log(
    events: Seq<PipelineEvent>,
    config: PipelineConfig,
    log: Seq<Service>,
    end: StageState,
) -> bool {
    &&& log.len() == end.processed
    &&& forall|place: int|
        0 <= place < log.len() ==> #[trigger] is_served_in_order(events, config, log, place)
    &&& end.waited == waits_in(events, log, log.len() as int)
    &&& end.oldest >= 0
    &&& forall|place: int|
        0 <= place < log.len() ==> age_of(events, config, #[trigger] log[place]) <= end.oldest
    &&& end.oldest == 0 || exists|place: int|
        0 <= place < log.len() && age_of(events, config, #[trigger] log[place]) == end.oldest
}

/// Whether `places` are those of the events in the queue.
spec fn is_queue(
    events: Seq<PipelineEvent>,
    stage: StageState,
    places: Seq<int>,
    after: int,
) -> bool {
    &&& places.len() == stage.queue.len()
    &&& forall|i: int|
        0 <= i < places.len() ==> after < #[trigger] places[i] < stage.offered && stage.queue[i]
            == events[places[i]]
    &&& forall|i: int, j: int|
        0 <= i < j < places.len() ==> (#[trigger] places[i]) < (#[trigger] places[j])
}

/// Where the newest event that is not dropped stands, and where the oldest: under a policy that
/// drops the newest the first event stays, under the others the latest does.
spec fn keeps_by_policy(
    config: PipelineConfig,
    stage: StageState,
    kept: Seq<int>,
) -> bool {
    stage.offered > 0 ==> kept.len() > 0 && (if config.drop_policy == DropPolicy::DropNewest {
        kept[0] == 0
    } else {
        kept.last() == stage.offered - 1
    })
}

spec fn places_in(log: Seq<Service>) -> Seq<int> {
    log.map_values(|service: Service| service.event)
}

spec fn last_served(log: Seq<Service>) -> int {
    event_before(log, log.len() as int)
}

/// Loading the queue keeps it in order. Where all that is queued stands at or after `from`, so
/// does all that is queued then; and where `arrived` holds, all of it has arrived.
proof fn lemma_load(
    events: Seq<PipelineEvent>,
    config: PipelineConfig,
    stage: StageState,
    places: Seq<int>,
    after: int,
    served: Seq<int>,
    from: int,
    arrived: bool,
) -> (now: Seq<int>)
    requires
        config.queue_capacity > 0,
        stage_inv(events, config, stage),
        is_queue(events, stage, places, after),
        keeps_by_policy(config, stage, served + places),
        stage.offered == 0 ==> served.len() == 0,
        after < from <= stage.offered,
        forall|i: int|
            0 <= i < places.len() ==> from <= #[trigger] places[i] && (arrived
                ==> events[places[i]].arrival_time_ns <= stage.now),
    ensures
        is_queue(events, offer_due(events, config, stage), now, after),
        keeps_by_policy(config, offer_due(events, config, stage), served + now),
        forall|i: int|
            0 <= i < now.len() ==> from <= #[trigger] now[i] && (arrived
                ==> events[now[i]].arrival_time_ns <= stage.now),
    decreases events.len() - stage.offered,
{
    if is_due(events, stage) {
        lemma_offer(events, config, stage);
        let event = events[stage.offered];
        let next = offer(config, stage, event);
        let held = places.len() as int;
        let next_places = if held < config.queue_capacity {
            places.push(stage.offered)
        } else {
            match config.drop_policy {
                DropPolicy::DropNewest => places,
                DropPolicy::DropOldest => places.subrange(1, held).push(stage.offered),
                DropPolicy::KeepLatest => seq![stage.offered],
            }
        };
        assert(is_queue(events, next, next_places, after));
        assert(keeps_by_policy(config, next, served + next_places)) by {
            let all = served + places;
            let kept = served + next_places;
            if stage.offered > 0 && config.drop_policy == DropPolicy::DropNewest {
                assert(kept[0] == all[0]);
            }
            if config.drop_policy != DropPolicy::DropNewest {
                assert(kept.last() == next_places.last());
            }
        }
        lemma_load(events, config, next, next_places, after, served, from, arrived)
    } else {
        places
    }
}

proof fn lemma_waits_of_prefix(
    events: Seq<PipelineEvent>,
    log: Seq<Service>,
    service: Service,
    count: int,
)
    requires
        0 <= count <= log.len(),
    ensures
        waits_in(events, log.push(service), count) == waits_in(events, log, count),
    decreases count,
{
    if count > 0 {
        lemma_waits_of_prefix(events, log, service, count - 1);
    }
}

proof fn lemma_log(
    events: Seq<PipelineEvent>,
    config: PipelineConfig,
    stage: StageState,
    places: Seq<int>,
    log: Seq<Service>,
) -> (full: Seq<Service>)
    requires
        config.queue_capacity > 0,
        stage_inv(events, config, stage),
        last_served(log) < stage.offered,
        is_queue(events, stage, places, last_served(log)),
        is_log(events, config, log, stage),
        stage.now == free_before(events, config, log, log.len() as int),
        keeps_by_policy(config, stage, places_in(log) + places),
    ensures
        is_log(events, config, full, drained(events, config, stage)),
        drained(events, config, stage).offered == events.len(),
        keeps_by_policy(config, drained(events, config, stage), places_in(full)),
    decreases events.len() - stage.offered + stage.queue.len(),
{
    if is_finished(events, stage) {
        assert(places_in(log) + places =~= places_in(log));
        log
    } else {
        let after = last_served(log);
        let length = log.len() as int;
        let awake = wake(events, stage);
        let idle = stage.queue.len() == 0;
        lemma_cycle(events, config, stage);
        lemma_offer_due(events, config, awake);
        assert(after >= -1) by {
            if length > 0 {
                assert(is_served_in_order(events, config, log, length - 1));
            }
        }
        let loaded = ready(events, config, stage);
        let now = lemma_load(
            events,
            config,
            awake,
            places,
            after,
            places_in(log),
            if idle {
                stage.offered
            } else {
                after + 1
            },
            idle,
        );
        let next = cycle(events, config, stage);
        let front = now[0];
        let service = Service { event: front, start: service_start(loaded) };
        let longer = log.push(service);
        assert(loaded.queue[0] == events[front]);
        assert(after < front < loaded.offered);
        assert(longer[length] == service);
        assert(forall|i: int| 0 <= i < length ==> longer[i] == log[i]);
        assert(is_served_in_order(events, config, longer, length)) by {
            if service.start != stage.now {
                if awake.now != stage.now {
                    assert(events[stage.offered].arrival_time_ns == service.start);
                } else {
                    assert(events[front].arrival_time_ns == service.start);
                }
            }
        }
        assert forall|place: int| 0 <= place < longer.len() implies #[trigger] is_served_in_order(
            events,
            config,
            longer,
            place,
        ) by {
            if place < length {
                assert(is_served_in_order(events, config, log, place));
            }
        }
        lemma_waits_of_prefix(events, log, service, length);
        assert(next == serve(config, loaded));
        assert(end_of(events, config, service) == next.now);
        assert(is_log(events, config, longer, next)) by {
            assert(age_of(events, config, longer[length]) <= next.oldest);
            assert forall|place: int| 0 <= place < longer.len() implies age_of(
                events,
                config,
                #[trigger] longer[place],
            ) <= next.oldest by {
                if place < length {
                    assert(age_of(events, config, log[place]) <= stage.oldest);
                }
            }
            if next.oldest == stage.oldest && stage.oldest != 0 {
                let place = choose|place: int|
                    0 <= place < log.len() && age_of(events, config, #[trigger] log[place])
                        == stage.oldest;
                assert(longer[place] == log[place]);
            }
        }
        let rest = now.subrange(1, now.len() as int);
        assert(is_queue(events, next, rest, front));
        assert(places_in(longer) + rest =~= places_in(log) + now);
        lemma_log(events, config, next, rest, longer)
    }
}

/// Every replay, whatever its queue and its policy, serves events one at a time and in the order
/// in which they are listed, none before it has arrived. Its waits are the sum of the times from
/// the arrival to the service of what it served, and its oldest message is the one of these that
/// took longest until it was done. Under a policy that drops the newest the first event is served;
/// under the others the last one is.
pub proof fn law_every_replay_serves_in_order(events: Seq<PipelineEvent>, config: PipelineConfig)
    requires
        events.len() > 0 ==> config.queue_capacity > 0,
    ensures
        exists|log: Seq<Service>| #[trigger]
            is_log(events, config, log, replayed(events, config)) && (events.len() > 0
                ==> log.len() > 0 && (config.drop_policy == DropPolicy::DropNewest ==> log[0].event
                == 0) && (config.drop_policy != DropPolicy::DropNewest ==> log.last().event
                == events.len() - 1)),
{
    let none = Seq::<Service>::empty();
    let places = Seq::<int>::empty();
    if events.len() > 0 {
        assert(is_log(events, config, none, initial_stage()));
        let log = lemma_log(events, config, initial_stage(), places, none);
        assert(places_in(log)[0] == log[0].event);
        assert(places_in(log).last() == log.last().event);
        assert(is_log(events, config, log, replayed(events, config)));
    } else {
        assert(is_log(events, config, none, replayed(events, config)));
    }
}

/// What a report says, with room for all events: all are processed, the waits add up, and depth
/// and age are the largest there are.
pub proof fn law_report_with_room_for_all(
    events: Seq<PipelineEvent>,
    config: PipelineConfig,
    report: PipelineReport,
)
    requires
        config.queue_capacity >= events.len(),
        takes_time(config),
        is_report(report, replayed(events, config)),
    ensures
        report.processed_events == events.len(),
        report.dropped_events == 0,
        report.total_queue_wait_ns == waits_in_turn(events, config, events.len() as int),
        is_largest_age(
            events,
            config,
            events.len() as int,
            report.maximum_message_age_ns as int,
        ),
        forall|first: int, last: int| #[trigger]
            queue_together(events, config, first, last) ==> last - first + 1
                <= report.maximum_queue_depth,
        events.len() > 0 ==> exists|first: int, last: int| #[trigger]
            queue_together(events, config, first, last) && last - first + 1
                == report.maximum_queue_depth,
{
    law_waits_add_up(events, config);
    law_depth_is_the_longest_run(events, config);
}

/// What a report says of any replay: it accounts for every event, for the waits of those that were
/// served, and for the age of the oldest of them; the queue held no more than it can.
pub proof fn law_report_of_any_replay(
    events: Seq<PipelineEvent>,
    config: PipelineConfig,
    report: PipelineReport,
)
    requires
        events.len() > 0,
        config.queue_capacity > 0,
        is_report(report, replayed(events, config)),
    ensures
        report.processed_events + report.dropped_events == events.len(),
        1 <= report.maximum_queue_depth <= config.queue_capacity,
        exists|log: Seq<Service>|
            #![trigger waits_in(events, log, log.len() as int)]
            {
                &&& log.len() == report.processed_events
                &&& forall|place: int|
                    0 <= place < log.len() ==> #[trigger] is_served_in_order(
                        events,
                        config,
                        log,
                        place,
                    )
                &&& report.total_queue_wait_ns == waits_in(events, log, log.len() as int)
                &&& forall|place: int|
                    0 <= place < log.len() ==> age_of(events, config, #[trigger] log[place])
                        <= report.maximum_message_age_ns
                &&& report.maximum_message_age_ns == 0 || exists|place: int|
                    0 <= place < log.len() && age_of(events, config, #[trigger] log[place])
                        == report.maximum_message_age_ns
            },
{
    law_every_event_is_accounted_for(events, config);
    law_queue_respects_its_capacity(events, config);
    law_every_replay_serves_in_order(events, config);
    let log = choose|log: Seq<Service>| #[trigger]
        is_log(events, config, log, replayed(events, config));
    assert(report.total_queue_wait_ns == waits_in(events, log, log.len() as int));
}

} // verus!
