use fusion::pipeline::{
    replay, DropPolicy, PipelineConfig, PipelineEvent, PipelineReport, SensorKind,
};

fn config(queue_capacity: usize, processing_ns: i64, drop_policy: DropPolicy) -> PipelineConfig {
    PipelineConfig {
        queue_capacity,
        drop_policy,
        imu_processing_ns: processing_ns,
        gps_processing_ns: processing_ns,
        camera_processing_ns: processing_ns,
        lidar_processing_ns: processing_ns,
    }
}

fn event(sensor: SensorKind, arrival_time_ns: i64) -> PipelineEvent {
    PipelineEvent {
        sensor,
        arrival_time_ns,
    }
}

#[test]
fn idle_pipeline_has_no_wait() {
    let events = [
        PipelineEvent {
            sensor: SensorKind::Imu,
            arrival_time_ns: 0,
        },
        PipelineEvent {
            sensor: SensorKind::Imu,
            arrival_time_ns: 10,
        },
    ];
    let report = replay(&events, config(4, 5, DropPolicy::DropNewest));
    assert_eq!(report.processed_events, 2);
    assert_eq!(report.dropped_events, 0);
    assert_eq!(report.total_queue_wait_ns, 0);
    assert_eq!(report.maximum_message_age_ns, 5);
}

#[test]
fn a_burst_drops_new_events_when_full() {
    let events = [
        PipelineEvent {
            sensor: SensorKind::Lidar,
            arrival_time_ns: 0,
        },
        PipelineEvent {
            sensor: SensorKind::Lidar,
            arrival_time_ns: 0,
        },
        PipelineEvent {
            sensor: SensorKind::Lidar,
            arrival_time_ns: 0,
        },
    ];
    let report = replay(&events, config(1, 10, DropPolicy::DropNewest));
    assert_eq!(report.processed_events, 1);
    assert_eq!(report.dropped_events, 2);
    assert_eq!(report.maximum_queue_depth, 1);
    assert_eq!(report.total_queue_wait_ns, 0);
}

#[test]
fn replay_is_deterministic() {
    let events = [
        PipelineEvent {
            sensor: SensorKind::Camera,
            arrival_time_ns: 0,
        },
        PipelineEvent {
            sensor: SensorKind::Imu,
            arrival_time_ns: 2,
        },
    ];
    let first = replay(&events, config(2, 7, DropPolicy::DropNewest));
    assert_eq!(first, replay(&events, config(2, 7, DropPolicy::DropNewest)));
}

#[test]
fn drop_oldest_keeps_the_new_arrival() {
    let events = [
        PipelineEvent {
            sensor: SensorKind::Gps,
            arrival_time_ns: 0,
        },
        PipelineEvent {
            sensor: SensorKind::Gps,
            arrival_time_ns: 0,
        },
    ];
    let report = replay(&events, config(1, 10, DropPolicy::DropOldest));
    assert_eq!(report.processed_events, 1);
    assert_eq!(report.dropped_events, 1);
}

#[test]
fn keep_latest_discards_the_backlog() {
    let events = [
        PipelineEvent {
            sensor: SensorKind::Camera,
            arrival_time_ns: 0,
        },
        PipelineEvent {
            sensor: SensorKind::Camera,
            arrival_time_ns: 0,
        },
        PipelineEvent {
            sensor: SensorKind::Camera,
            arrival_time_ns: 0,
        },
    ];
    let report = replay(&events, config(1, 10, DropPolicy::KeepLatest));
    assert_eq!(report.processed_events, 1);
    assert_eq!(report.dropped_events, 2);
    assert_eq!(report.total_queue_wait_ns, 0);
}

#[test]
fn no_events_give_an_empty_report() {
    let report = replay(&[], config(0, 10, DropPolicy::DropNewest));
    assert_eq!(report, PipelineReport::default());
}

#[test]
fn waiting_events_are_served_in_turn() {
    let events = [
        event(SensorKind::Imu, 0),
        event(SensorKind::Gps, 1),
        event(SensorKind::Lidar, 2),
    ];
    let report = replay(&events, config(3, 10, DropPolicy::DropNewest));
    assert_eq!(report.processed_events, 3);
    assert_eq!(report.dropped_events, 0);
    assert_eq!(report.maximum_queue_depth, 2);
    // The second waits from 1 to 10, the third from 2 to 20.
    assert_eq!(report.total_queue_wait_ns, 27);
    // The third is done at 30.
    assert_eq!(report.maximum_message_age_ns, 28);
}

#[test]
fn each_sensor_has_its_own_processing_time() {
    let config = PipelineConfig {
        queue_capacity: 1,
        drop_policy: DropPolicy::DropNewest,
        imu_processing_ns: 1,
        gps_processing_ns: 2,
        camera_processing_ns: 3,
        lidar_processing_ns: 4,
    };
    for (sensor, time) in [
        (SensorKind::Imu, 1),
        (SensorKind::Gps, 2),
        (SensorKind::Camera, 3),
        (SensorKind::Lidar, 4),
    ] {
        assert_eq!(config.processing_time_ns(sensor), time);
        let report = replay(&[event(sensor, 5)], config);
        assert_eq!(report.maximum_message_age_ns, time);
    }
}

#[test]
fn every_event_is_processed_or_dropped() {
    let events: Vec<PipelineEvent> = (0..20)
        .map(|place| event(SensorKind::Camera, place * 3))
        .collect();
    for policy in [
        DropPolicy::DropNewest,
        DropPolicy::DropOldest,
        DropPolicy::KeepLatest,
    ] {
        let report = replay(&events, config(2, 10, policy));
        assert_eq!(report.processed_events + report.dropped_events, 20);
        assert!(report.maximum_queue_depth <= 2);
        assert!(report.dropped_events > 0);
    }
}
