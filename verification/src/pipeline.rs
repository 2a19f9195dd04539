//! A single processing stage with a bounded queue, replayed over a list of arrivals.
//!
//! Events are offered to the queue once their arrival time has come; the stage takes one event
//! at a time from the front and is busy for that sensor's processing time. The report counts
//! what was processed, what was dropped, and how long events waited.
use std::collections::VecDeque;

use vstd::prelude::*;

verus! {

#[derive(Debug, Clone, Copy, PartialEq, Eq, Structural)]
pub enum SensorKind {
    Imu,
    Gps,
    Camera,
    Lidar,
}

#[derive(Debug, Clone, Copy, PartialEq, Eq, Structural)]
pub struct PipelineEvent {
    pub sensor: SensorKind,
    pub arrival_time_ns: i64,
}

/// What happens to an event that arrives at a full queue.
#[derive(Debug, Clone, Copy, PartialEq, Eq, Structural)]
pub enum DropPolicy {
    /// The arriving event is dropped.
    DropNewest,
    /// The event at the front of the queue is dropped to make room.
    DropOldest,
    /// Everything queued is dropped; only the arriving event stays.
    KeepLatest,
}

#[derive(Debug, Clone, Copy, PartialEq, Eq, Structural)]
pub struct PipelineConfig {
    pub queue_capacity: usize,
    pub drop_policy: DropPolicy,
    pub imu_processing_ns: i64,
    pub gps_processing_ns: i64,
    pub camera_processing_ns: i64,
    pub lidar_processing_ns: i64,
}

#[derive(Debug, Clone, Copy, PartialEq, Eq, Structural)]
pub struct PipelineReport {
    pub processed_events: usize,
    pub dropped_events: usize,
    pub maximum_queue_depth: usize,
    pub total_queue_wait_ns: i64,
    pub maximum_message_age_ns: i64,
}

impl Default for PipelineReport {
    fn default() -> (report: Self)
        ensures
            report.processed_events == 0,
            report.dropped_events == 0,
            report.maximum_queue_depth == 0,
            report.total_queue_wait_ns == 0,
            report.maximum_message_age_ns == 0,
    {
        PipelineReport {
            processed_events: 0,
            dropped_events: 0,
            maximum_queue_depth: 0,
            total_queue_wait_ns: 0,
            maximum_message_age_ns: 0,
        }
    }
}

impl PipelineConfig {
    /// How long the stage is busy with an event of `sensor`.
    pub open spec fn spec_processing_time_ns(self, sensor: SensorKind) -> i64 {
        match sensor {
            SensorKind::Imu => self.imu_processing_ns,
            SensorKind::Gps => self.gps_processing_ns,
            SensorKind::Camera => self.camera_processing_ns,
            SensorKind::Lidar => self.lidar_processing_ns,
        }
    }

    #[verifier::when_used_as_spec(spec_processing_time_ns)]
    pub fn processing_time_ns(self, sensor: SensorKind) -> (time: i64)
        ensures
            time == self.spec_processing_time_ns(sensor),
    {
        match sensor {
            SensorKind::Imu => self.imu_processing_ns,
            SensorKind::Gps => self.gps_processing_ns,
            SensorKind::Camera => self.camera_processing_ns,
            SensorKind::Lidar => self.lidar_processing_ns,
        }
    }
}

/// The stage between two steps, over unbounded integers: the clock, how many events have been
/// offered to the queue, the queue itself, and the report so far.
#[verifier::ext_equal]
pub struct StageState {
    pub now: int,
    pub offered: int,
    pub queue: Seq<PipelineEvent>,
    pub processed: int,
    pub dropped: int,
    pub deepest: int,
    pub waited: int,
    pub oldest: int,
}

pub open spec fn larger(a: int, b: int) -> int {
    if a >= b {
        a
    } else {
        b
    }
}

pub open spec fn fits_i64(value: int) -> bool {
    i64::MIN <= value <= i64::MAX
}

/// The stage before anything happened: clock at zero, nothing offered, empty queue.
pub open spec fn initial_stage() -> StageState {
    StageState {
        now: 0,
        offered: 0,
        queue: Seq::empty(),
        processed: 0,
        dropped: 0,
        deepest: 0,
        waited: 0,
        oldest: 0,
    }
}

/// The stage after `event` was offered to the queue.
pub open spec fn offer(
    config: PipelineConfig,
    stage: StageState,
    event: PipelineEvent,
) -> StageState {
    let length = stage.queue.len() as int;
    if length < config.queue_capacity {
        StageState {
            offered: stage.offered + 1,
            queue: stage.queue.push(event),
            deepest: larger(stage.deepest, length + 1),
            ..stage
        }
    } else {
        match config.drop_policy {
            DropPolicy::DropNewest => StageState {
                offered: stage.offered + 1,
                dropped: stage.dropped + 1,
                ..stage
            },
            DropPolicy::DropOldest => StageState {
                offered: stage.offered + 1,
                queue: stage.queue.subrange(1, length).push(event),
                dropped: stage.dropped + 1,
                ..stage
            },
            DropPolicy::KeepLatest => StageState {
                offered: stage.offered + 1,
                queue: seq![event],
                dropped: stage.dropped + length,
                ..stage
            },
        }
    }
}

/// Whether the next event not yet offered has arrived by the stage's clock.
pub open spec fn is_due(events: Seq<PipelineEvent>, stage: StageState) -> bool {
    0 <= stage.offered < events.len() && events[stage.offered].arrival_time_ns <= stage.now
}

/// The stage after every event that is due was offered, in order.
pub open spec fn offer_due(
    events: Seq<PipelineEvent>,
    config: PipelineConfig,
    stage: StageState,
) -> StageState
    decreases events.len() - stage.offered,
{
    if is_due(events, stage) {
        offer_due(events, config, offer(config, stage, events[stage.offered]))
    } else {
        stage
    }
}

/// The stage with its clock moved to the next arrival, when it has nothing else to do.
pub open spec fn wake(events: Seq<PipelineEvent>, stage: StageState) -> StageState {
    if stage.queue.len() == 0 && 0 <= stage.offered < events.len() && !is_due(events, stage) {
        StageState { now: events[stage.offered].arrival_time_ns as int, ..stage }
    } else {
        stage
    }
}

/// When the stage starts on the event at the front of its queue.
pub open spec fn service_start(stage: StageState) -> int {
    larger(stage.now, stage.queue[0].arrival_time_ns as int)
}

/// When the stage is done with the event at the front of its queue.
pub open spec fn service_end(config: PipelineConfig, stage: StageState) -> int {
    service_start(stage) + config.spec_processing_time_ns(stage.queue[0].sensor)
}

/// The stage after it processed the event at the front of its queue.
pub open spec fn serve(config: PipelineConfig, stage: StageState) -> StageState {
    let arrival = stage.queue[0].arrival_time_ns as int;
    StageState {
        now: service_end(config, stage),
        queue: stage.queue.subrange(1, stage.queue.len() as int),
        processed: stage.processed + 1,
        waited: stage.waited + (service_start(stage) - arrival),
        oldest: larger(stage.oldest, service_end(config, stage) - arrival),
        ..stage
    }
}

/// The stage ready to serve: awake, with everything due in its queue.
pub open spec fn ready(
    events: Seq<PipelineEvent>,
    config: PipelineConfig,
    stage: StageState,
) -> StageState {
    offer_due(events, config, wake(events, stage))
}

/// The stage after it processed one more event.
pub open spec fn cycle(
    events: Seq<PipelineEvent>,
    config: PipelineConfig,
    stage: StageState,
) -> StageState {
    serve(config, ready(events, config, stage))
}

/// Whether every event was offered and the queue has run empty.
pub open spec fn is_finished(events: Seq<PipelineEvent>, stage: StageState) -> bool {
    stage.offered >= events.len() && stage.queue.len() == 0
}

/// A stage that a replay of `events` can reach: the queue respects its capacity, and every event
/// offered was processed, dropped, or is still queued.
pub open spec fn stage_inv(
    events: Seq<PipelineEvent>,
    config: PipelineConfig,
    stage: StageState,
) -> bool {
    &&& 0 <= stage.offered <= events.len()
    &&& 0 <= stage.processed
    &&& 0 <= stage.dropped
    &&& stage.queue.len() <= stage.deepest <= config.queue_capacity
    &&& stage.processed + stage.dropped + stage.queue.len() == stage.offered
}

/// The stage at the end of the replay.
pub open spec fn drained(
    events: Seq<PipelineEvent>,
    config: PipelineConfig,
    stage: StageState,
) -> StageState
    decreases events.len() - stage.offered + stage.queue.len(),
    when config.queue_capacity > 0 && stage_inv(events, config, stage)
    via drained_decreases
{
    if is_finished(events, stage) {
        stage
    } else {
        drained(events, config, cycle(events, config, stage))
    }
}

#[via_fn]
proof fn drained_decreases(
    events: Seq<PipelineEvent>,
    config: PipelineConfig,
    stage: StageState,
) {
    if !is_finished(events, stage) {
        lemma_cycle(events, config, stage);
    }
}

/// Whether the times of the next service are all representable: the wait, the accumulated wait,
/// the end of service, and the age of the event at that point.
pub open spec fn cycle_fits(
    events: Seq<PipelineEvent>,
    config: PipelineConfig,
    stage: StageState,
) -> bool {
    let loaded = ready(events, config, stage);
    let arrival = loaded.queue[0].arrival_time_ns as int;
    &&& fits_i64(service_start(loaded) - arrival)
    &&& fits_i64(loaded.waited + (service_start(loaded) - arrival))
    &&& fits_i64(service_end(config, loaded))
    &&& fits_i64(service_end(config, loaded) - arrival)
}

/// Whether every time that the rest of the replay computes is representable.
pub open spec fn times_fit(
    events: Seq<PipelineEvent>,
    config: PipelineConfig,
    stage: StageState,
) -> bool
    decreases events.len() - stage.offered + stage.queue.len(),
    when config.queue_capacity > 0 && stage_inv(events, config, stage)
    via times_fit_decreases
{
    is_finished(events, stage) || (cycle_fits(events, config, stage) && times_fit(
        events,
        config,
        cycle(events, config, stage),
    ))
}

#[via_fn]
proof fn times_fit_decreases(
    events: Seq<PipelineEvent>,
    config: PipelineConfig,
    stage: StageState,
) {
    if !is_finished(events, stage) {
        lemma_cycle(events, config, stage);
    }
}

/// One offer keeps the stage consistent and leaves the queue nonempty.
pub(crate) proof fn lemma_offer(
    events: Seq<PipelineEvent>,
    config: PipelineConfig,
    stage: StageState,
)
    requires
        config.queue_capacity > 0,
        stage_inv(events, config, stage),
        stage.offered < events.len(),
    ensures
        stage_inv(events, config, offer(config, stage, events[stage.offered])),
        offer(config, stage, events[stage.offered]).queue.len() > 0,
        offer(config, stage, events[stage.offered]).offered == stage.offered + 1,
        offer(config, stage, events[stage.offered]).queue.len() <= stage.queue.len() + 1,
{
}

pub(crate) proof fn lemma_offer_due(
    events: Seq<PipelineEvent>,
    config: PipelineConfig,
    stage: StageState,
)
    requires
        config.queue_capacity > 0,
        stage_inv(events, config, stage),
    ensures
        ({
            let after = offer_due(events, config, stage);
            &&& stage_inv(events, config, after)
            &&& !is_due(events, after)
            &&& after.offered >= stage.offered
            &&& (events.len() - after.offered) + after.queue.len() <= (events.len()
                - stage.offered) + stage.queue.len()
            &&& stage.queue.len() > 0 || is_due(events, stage) ==> after.queue.len() > 0
            &&& after.now == stage.now
            &&& after.processed == stage.processed
            &&& after.waited == stage.waited
            &&& after.oldest == stage.oldest
        }),
    decreases events.len() - stage.offered,
{
    if is_due(events, stage) {
        lemma_offer(events, config, stage);
        lemma_offer_due(events, config, offer(config, stage, events[stage.offered]));
    }
}

/// A cycle that is not the last keeps the stage consistent and leaves less to do.
pub(crate) proof fn lemma_cycle(
    events: Seq<PipelineEvent>,
    config: PipelineConfig,
    stage: StageState,
)
    requires
        config.queue_capacity > 0,
        stage_inv(events, config, stage),
        !is_finished(events, stage),
    ensures
        ready(events, config, stage).queue.len() > 0,
        stage_inv(events, config, ready(events, config, stage)),
        stage_inv(events, config, cycle(events, config, stage)),
        0 <= (events.len() - cycle(events, config, stage).offered) + cycle(
            events,
            config,
            stage,
        ).queue.len() < (events.len() - stage.offered) + stage.queue.len(),
{
    lemma_offer_due(events, config, wake(events, stage));
}

/// The report that a stage stands for.
pub open spec fn is_report(report: PipelineReport, stage: StageState) -> bool {
    &&& report.processed_events == stage.processed
    &&& report.dropped_events == stage.dropped
    &&& report.maximum_queue_depth == stage.deepest
    &&& report.total_queue_wait_ns == stage.waited
    &&& report.maximum_message_age_ns == stage.oldest
}

/// What a replay accepts: room for at least one queued event, unless there are no events at all,
/// and times that stay representable throughout.
pub open spec fn can_replay(events: Seq<PipelineEvent>, config: PipelineConfig) -> bool {
    events.len() > 0 ==> config.queue_capacity > 0 && times_fit(events, config, initial_stage())
}

/// The stage at the end of a replay from the start.
pub open spec fn replayed(events: Seq<PipelineEvent>, config: PipelineConfig) -> StageState {
    if events.len() == 0 {
        initial_stage()
    } else {
        drained(events, config, initial_stage())
    }
}

/// Replays `events` through the stage and reports what happened.
pub fn replay(events: &[PipelineEvent], config: PipelineConfig) -> (report: PipelineReport)
    requires
        can_replay(events@, config),
    ensures
        is_report(report, replayed(events@, config)),
{
    let mut queue: VecDeque<PipelineEvent> = VecDeque::new();
    let mut report = PipelineReport::default();
    let mut now_ns: i64 = 0;
    let mut index: usize = 0;
    let ghost mut stage = initial_stage();
    proof {
        assert(queue@ =~= stage.queue);
    }
    while index < events.len() || queue.len() > 0
        invariant
            events.len() > 0 ==> config.queue_capacity > 0,
            events.len() == 0 ==> stage == initial_stage(),
            events.len() > 0 ==> times_fit(events@, config, stage),
            events.len() > 0 ==> drained(events@, config, stage) == replayed(events@, config),
            stage_inv(events@, config, stage),
            stage.now == now_ns,
            stage.offered == index,
            stage.queue == queue@,
            is_report(report, stage),
        decreases
            events.len() - index + queue.len(),
            (if queue.len() > 0 || is_due(events@, stage) {
                0int
            } else {
                1int
            }),
    {
        let ghost before = stage;
        proof {
            lemma_cycle(events@, config, before);
            lemma_offer_due(events@, config, before);
        }
        while index < events.len() && events[index].arrival_time_ns <= now_ns
            invariant
                config.queue_capacity > 0,
                stage_inv(events@, config, stage),
                stage.now == now_ns,
                stage.offered == index,
                stage.queue == queue@,
                is_report(report, stage),
                offer_due(events@, config, stage) == offer_due(events@, config, before),
            decreases events.len() - index,
        {
            let event = events[index];
            proof {
                lemma_offer(events@, config, stage);
                stage = offer(config, stage, event);
            }
            if queue.len() == config.queue_capacity {
                match config.drop_policy {
                    DropPolicy::DropNewest => {
                        report.dropped_events = report.dropped_events + 1;
                    },
                    DropPolicy::DropOldest => {
                        let _ = queue.pop_front();
                        queue.push_back(event);
                        report.dropped_events = report.dropped_events + 1;
                    },
                    DropPolicy::KeepLatest => {
                        report.dropped_events = report.dropped_events + queue.len();
                        queue.clear();
                        queue.push_back(event);
                    },
                }
            } else {
                queue.push_back(event);
                if queue.len() > report.maximum_queue_depth {
                    report.maximum_queue_depth = queue.len();
                }
            }
            index = index + 1;
            proof {
                assert(stage.queue =~= queue@);
            }
        }
        assert(stage == offer_due(events@, config, before));
        if queue.len() == 0 {
            assert(stage == before);
            now_ns = events[index].arrival_time_ns;
            proof {
                stage = wake(events@, before);
                assert(wake(events@, stage) == stage);
                assert(cycle(events@, config, stage) == cycle(events@, config, before));
                assert(is_due(events@, stage));
            }
            continue;
        }
        assert(wake(events@, before) == before);
        let ghost loaded = stage;
        proof {
            stage = cycle(events@, config, before);
        }
        let event = queue.pop_front().unwrap();
        let start_ns: i64 = if now_ns >= event.arrival_time_ns {
            now_ns
        } else {
            event.arrival_time_ns
        };
        let wait_ns: i64 = start_ns - event.arrival_time_ns;
        report.processed_events = report.processed_events + 1;
        report.total_queue_wait_ns = report.total_queue_wait_ns + wait_ns;
        now_ns = start_ns + config.processing_time_ns(event.sensor);
        let age_ns: i64 = now_ns - event.arrival_time_ns;
        if age_ns > report.maximum_message_age_ns {
            report.maximum_message_age_ns = age_ns;
        }
    }
    report
}

} // verus!
