use fusion::binary64::Binary64;
use fusion::bundle::{
    read_ego_estimates, read_ego_truth, read_imu_bias_truth, read_measurements, read_object_truth,
    read_tracks, take_measurements, take_payloads, write_ego_estimates, write_ego_estimates_file,
    write_generated, write_measurements, write_tracks_file, write_truth, GeneratedRun,
    MeasurementRecord, ReadFailure, RecordKind,
};
use fusion::container::{read_container, write_container, Entry, Lane, StoredMessage, WriteFailure};
use fusion::messages::{
    CameraFrame, EgoStateEstimate, EgoTruthState, GpsFix, ImuBiasTruth, ImuSample, LidarScan,
    MeasurementTime, ObjectTrackFrame, ObjectTruthState,
};

use fusion::round_trip::{
    write_and_read_ego_estimates, write_and_read_measurements, write_and_read_tracks,
    write_and_read_truth,
};

const DESCRIPTORS: [u8; 3] = [1, 2, 3];

fn number(value: f64) -> Binary64 {
    Binary64 {
        bits: value.to_bits(),
    }
}

fn time(stamp: i64, arrival: i64) -> Option<MeasurementTime> {
    Some(MeasurementTime {
        measurement_time_ns: stamp,
        arrival_time_ns: arrival,
    })
}

fn imu(stamp: i64, arrival: i64) -> MeasurementRecord {
    MeasurementRecord::Imu(ImuSample {
        time: time(stamp, arrival),
        yaw_rate_radps: number(0.0),
        forward_acceleration_mps2: number(0.0),
    })
}

fn gps(stamp: i64, arrival: i64) -> MeasurementRecord {
    MeasurementRecord::Gps(GpsFix {
        time: time(stamp, arrival),
        position_world_m: None,
        horizontal_position_variance_m2: number(0.0),
    })
}

fn camera(stamp: i64, arrival: i64) -> MeasurementRecord {
    MeasurementRecord::Camera(CameraFrame {
        time: time(stamp, arrival),
        content: vec![7],
    })
}

fn lidar(stamp: i64, arrival: i64) -> MeasurementRecord {
    MeasurementRecord::Lidar(LidarScan {
        time: time(stamp, arrival),
        content: vec![8],
    })
}

fn stored(schema: Option<&str>, log_time: u64, data: &[u8]) -> StoredMessage {
    StoredMessage {
        schema: schema.map(|name| name.to_string()),
        log_time,
        data: data.to_vec(),
    }
}

fn estimate(estimate_time_ns: i64, available_time_ns: i64) -> EgoStateEstimate {
    EgoStateEstimate {
        estimate_time_ns,
        available_time_ns,
        pose_world: None,
        forward_speed_mps: number(0.0),
        state_covariance: vec![],
        gyro_bias_z_radps: None,
        accel_bias_x_mps2: None,
    }
}

#[test]
fn records_have_times_and_kinds() {
    for (record, kind) in [
        (imu(1, 2), RecordKind::Imu),
        (gps(1, 2), RecordKind::Gps),
        (camera(1, 2), RecordKind::Camera),
        (lidar(1, 2), RecordKind::Lidar),
    ] {
        assert_eq!(record.kind(), kind);
        assert_eq!(record.time().measurement_time_ns, 1);
        assert_eq!(record.time().arrival_time_ns, 2);
    }
}

#[test]
fn written_measurements_are_read_back() {
    let records = [imu(1, 2), gps(0, 3), camera(3, 3), lidar(2, 9)];
    let payloads = vec![vec![10], vec![], vec![30, 31], vec![40; 1000]];
    let file = write_measurements(&records, payloads.clone(), &DESCRIPTORS);
    assert!(file.failure.is_none());
    assert!(file.is_whole);
    let read = read_measurements(&file.bytes);
    assert!(read.failure.is_none());
    let kinds: Vec<RecordKind> = read.frames.iter().map(|frame| frame.kind).collect();
    assert_eq!(
        kinds,
        vec![
            RecordKind::Imu,
            RecordKind::Gps,
            RecordKind::Camera,
            RecordKind::Lidar
        ]
    );
    let data: Vec<Vec<u8>> = read.frames.into_iter().map(|frame| frame.data).collect();
    assert_eq!(data, payloads);
}

#[test]
fn written_messages_carry_times_numbers_and_topics() {
    let records = [imu(1, 2), gps(0, 3)];
    let file = write_measurements(&records, vec![vec![10], vec![20]], &DESCRIPTORS);
    let bytes = file.bytes;
    let messages: Vec<mcap::Message> = mcap::MessageStream::new(&bytes)
        .unwrap()
        .map(|message| message.unwrap())
        .collect();
    assert_eq!(messages.len(), 2);
    assert_eq!(messages[0].sequence, 0);
    assert_eq!(messages[0].log_time, 2);
    assert_eq!(messages[0].publish_time, 1);
    assert_eq!(messages[0].channel.topic, "/measurement/imu");
    assert_eq!(messages[0].channel.message_encoding, "protobuf");
    let schema = messages[0].channel.schema.as_ref().unwrap();
    assert_eq!(schema.name, "fusion.ImuSample");
    assert_eq!(schema.encoding, "protobuf");
    assert_eq!(schema.data.as_ref(), &DESCRIPTORS);
    assert_eq!(messages[1].sequence, 1);
    assert_eq!(messages[1].log_time, 3);
    assert_eq!(messages[1].publish_time, 0);
    assert_eq!(messages[1].channel.topic, "/measurement/gps");
    let schema = messages[1].channel.schema.as_ref().unwrap();
    assert_eq!(schema.name, "fusion.GpsFix");
}

#[test]
fn disordered_measurements_are_refused() {
    let records = [imu(1, 5), gps(1, 4), camera(9, 9)];
    let file = write_measurements(&records, vec![vec![1], vec![2], vec![3]], &DESCRIPTORS);
    assert!(file.failure.is_none());
    let read = read_measurements(&file.bytes);
    assert_eq!(read.frames.len(), 1);
    let failure = read.failure.unwrap();
    assert!(matches!(failure, ReadFailure::OutOfOrder));
    assert_eq!(
        failure.message().as_deref(),
        Some("measurement MCAP is not in arrival order")
    );
}

#[test]
fn negative_times_are_not_written() {
    let records = [imu(1, 2), gps(-1, 3), camera(4, 4)];
    let file = write_measurements(&records, vec![vec![1], vec![2], vec![3]], &DESCRIPTORS);
    assert!(file.is_whole);
    let failure = file.failure.unwrap();
    assert!(matches!(failure, WriteFailure::NegativeTime));
    assert_eq!(
        failure.message().as_deref(),
        Some("MCAP times must be nonnegative")
    );
    // What stands before it is there.
    let read = read_measurements(&file.bytes);
    assert!(read.failure.is_none());
    assert_eq!(read.frames.len(), 1);
    assert_eq!(read.frames[0].data, vec![1]);
}

#[test]
fn messages_are_refused_for_one_reason() {
    let file = take_measurements(vec![
        stored(Some("fusion.GpsFix"), 4, &[1]),
        stored(None, 5, &[2]),
    ]);
    assert_eq!(file.frames.len(), 1);
    assert_eq!(file.frames[0].kind, RecordKind::Gps);
    assert_eq!(
        file.failure.unwrap().message().as_deref(),
        Some("measurement channel has no schema")
    );

    let file = take_measurements(vec![stored(Some("fusion.Radar"), 4, &[1])]);
    assert!(file.frames.is_empty());
    assert_eq!(
        file.failure.unwrap().message().as_deref(),
        Some("unsupported measurement schema fusion.Radar")
    );

    // The order is tested before the schema.
    let file = take_measurements(vec![
        stored(Some("fusion.LidarScan"), 4, &[1]),
        stored(None, 3, &[2]),
    ]);
    assert!(matches!(file.failure, Some(ReadFailure::OutOfOrder)));

    // Messages of one moment are in order.
    let file = take_measurements(vec![
        stored(Some("fusion.LidarScan"), 4, &[1]),
        stored(Some("fusion.CameraFrame"), 4, &[2]),
    ]);
    assert!(file.failure.is_none());
    assert_eq!(file.frames.len(), 2);
}

#[test]
fn damaged_containers_are_reported() {
    let read = read_measurements(&[]);
    assert!(read.frames.is_empty());
    let failure = read.failure.unwrap();
    assert!(matches!(failure, ReadFailure::Container(_)));
    assert_eq!(failure.message(), None);

    let read = read_measurements(b"this is no container at all");
    assert!(matches!(read.failure, Some(ReadFailure::Container(_))));

    // Cut off behind the messages.
    let file = write_measurements(&[imu(1, 2)], vec![vec![10]], &DESCRIPTORS);
    let bytes = file.bytes;
    let read = read_measurements(&bytes[..bytes.len() - 4]);
    assert_eq!(read.frames.len(), 1);
    assert!(matches!(read.failure, Some(ReadFailure::Container(_))));
    assert!(read_ego_truth(&bytes[..bytes.len() - 4]).failure.is_some());
}

#[test]
fn truth_is_read_back_part_by_part() {
    let ego = [
        EgoTruthState {
            time_ns: 0,
            content: vec![1],
        },
        EgoTruthState {
            time_ns: 10,
            content: vec![2],
        },
    ];
    let objects = [ObjectTruthState {
        time_ns: 5,
        content: vec![3],
    }];
    let bias = [ImuBiasTruth {
        time_ns: 7,
        content: vec![4],
    }];
    let file = write_truth(&ego, &objects, &bias, &DESCRIPTORS);
    assert!(file.failure.is_none());
    let bytes = file.bytes;
    assert_eq!(read_ego_truth(&bytes).payloads, vec![vec![1], vec![2]]);
    assert_eq!(read_object_truth(&bytes).payloads, vec![vec![3]]);
    assert_eq!(read_imu_bias_truth(&bytes).payloads, vec![vec![4]]);
    assert!(read_tracks(&bytes).payloads.is_empty());
    assert!(read_ego_truth(&bytes).failure.is_none());

    let messages: Vec<mcap::Message> = mcap::MessageStream::new(&bytes)
        .unwrap()
        .map(|message| message.unwrap())
        .collect();
    let facts: Vec<(String, u32, u64, u64)> = messages
        .iter()
        .map(|message| {
            (
                message.channel.topic.clone(),
                message.sequence,
                message.log_time,
                message.publish_time,
            )
        })
        .collect();
    assert_eq!(
        facts,
        vec![
            ("/truth/ego".to_string(), 0, 0, 0),
            ("/truth/ego".to_string(), 1, 10, 10),
            ("/truth/objects".to_string(), 0, 5, 5),
            ("/truth/imu_bias".to_string(), 0, 7, 7),
        ]
    );
}

#[test]
fn estimates_are_read_back() {
    let estimates = [estimate(1, 2), estimate(3, 2)];
    let payloads = vec![vec![1], vec![2]];
    let file = write_ego_estimates_file("mine", &estimates, payloads.clone(), &DESCRIPTORS);
    let bytes = file.bytes;
    assert_eq!(read_ego_estimates(&bytes).payloads, payloads);
    let message = mcap::MessageStream::new(&bytes)
        .unwrap()
        .next()
        .unwrap()
        .unwrap();
    assert_eq!(message.channel.topic, "/estimate/ego/mine");
    assert_eq!(message.log_time, 2);
    assert_eq!(message.publish_time, 1);

    let file = write_ego_estimates(&estimates, payloads, &DESCRIPTORS);
    let bytes = file.bytes;
    let message = mcap::MessageStream::new(&bytes)
        .unwrap()
        .next()
        .unwrap()
        .unwrap();
    assert_eq!(message.channel.topic, "/estimate/ego/ego-baseline");

    let file = write_ego_estimates(&[estimate(1, -2)], vec![vec![1]], &DESCRIPTORS);
    assert!(matches!(file.failure, Some(WriteFailure::NegativeTime)));
}

#[test]
fn tracks_are_read_back() {
    let frames = [
        ObjectTrackFrame {
            estimate_time_ns: 4,
            available_time_ns: 6,
            content: vec![1],
        },
        ObjectTrackFrame {
            estimate_time_ns: 5,
            available_time_ns: 7,
            content: vec![2],
        },
    ];
    let file = write_tracks_file("truth-ego", &frames, &DESCRIPTORS);
    let bytes = file.bytes;
    assert_eq!(read_tracks(&bytes).payloads, vec![vec![1], vec![2]]);
    let message = mcap::MessageStream::new(&bytes)
        .unwrap()
        .next()
        .unwrap()
        .unwrap();
    assert_eq!(message.channel.topic, "/track/object/truth-ego");
    assert_eq!(message.log_time, 6);
    assert_eq!(message.publish_time, 4);
    assert_eq!(
        message.channel.schema.as_ref().unwrap().name,
        "fusion.ObjectTrackFrame"
    );
}

#[test]
fn payloads_are_picked_by_schema() {
    let messages = vec![
        stored(Some("a"), 0, &[1]),
        stored(Some("b"), 1, &[2]),
        stored(None, 2, &[3]),
        stored(Some("a"), 3, &[4]),
    ];
    assert_eq!(take_payloads(messages, "a"), vec![vec![1], vec![4]]);
}

#[test]
fn large_containers_keep_their_order() {
    let lanes = vec![
        Lane {
            schema: "one".to_string(),
            topic: "/one".to_string(),
        },
        Lane {
            schema: "two".to_string(),
            topic: "/two".to_string(),
        },
    ];
    let entries: Vec<Entry> = (0..3000)
        .map(|place| Entry {
            lane: place % 2,
            sequence: place as u32,
            log_time_ns: place as i64,
            publish_time_ns: place as i64,
            data: vec![(place % 251) as u8; 1000],
        })
        .collect();
    let file = write_container(&lanes, &DESCRIPTORS, &entries);
    let contents = read_container(&file.bytes);
    assert!(contents.failure.is_none());
    assert_eq!(contents.messages.len(), 3000);
    for (place, message) in contents.messages.iter().enumerate() {
        assert_eq!(message.log_time, place as u64);
        assert_eq!(message.data, vec![(place % 251) as u8; 1000]);
        let schema = if place % 2 == 0 { "one" } else { "two" };
        assert_eq!(message.schema.as_deref(), Some(schema));
    }
}

#[test]
fn equal_lanes_share_a_channel() {
    let lanes = vec![
        Lane {
            schema: "one".to_string(),
            topic: "/one".to_string(),
        },
        Lane {
            schema: "one".to_string(),
            topic: "/one".to_string(),
        },
    ];
    let entry = |lane: usize| Entry {
        lane,
        sequence: 0,
        log_time_ns: 0,
        publish_time_ns: 0,
        data: vec![lane as u8],
    };
    let file = write_container(&lanes, &[], &vec![entry(0), entry(1)]);
    let contents = read_container(&file.bytes);
    assert_eq!(contents.messages.len(), 2);
    assert_eq!(contents.messages[1].schema.as_deref(), Some("one"));
}

#[test]
fn a_channel_may_have_no_schema() {
    let mut writer = mcap::Writer::new(std::io::Cursor::new(Vec::new())).unwrap();
    let channel = writer
        .add_channel(0, "/bare", "raw", &std::collections::BTreeMap::new())
        .unwrap();
    writer
        .write_to_known_channel(
            &mcap::records::MessageHeader {
                channel_id: channel,
                sequence: 0,
                log_time: 1,
                publish_time: 1,
            },
            &[5],
        )
        .unwrap();
    writer.finish().unwrap();
    let bytes = writer.into_inner().into_inner();
    let contents = read_container(&bytes);
    assert!(contents.failure.is_none());
    assert_eq!(contents.messages.len(), 1);
    assert_eq!(contents.messages[0].schema, None);
    let read = read_measurements(&bytes);
    assert!(matches!(read.failure, Some(ReadFailure::NoSchema)));
}

#[test]
fn the_truth_is_written_once_the_deliveries_are() {
    let mut generated = GeneratedRun {
        measurements: vec![imu(1, 2)],
        ego_truth_states: vec![EgoTruthState {
            time_ns: 3,
            content: vec![9],
        }],
        object_truth_states: vec![],
        imu_bias_truth: vec![],
    };
    let files = write_generated(&generated, vec![vec![10]], &DESCRIPTORS);
    let read = read_measurements(&files.measurements.bytes);
    assert_eq!(read.frames[0].data, vec![10]);
    let truth = files.truth.unwrap().bytes;
    assert_eq!(read_ego_truth(&truth).payloads, vec![vec![9]]);

    generated.measurements = vec![imu(-1, 2)];
    let files = write_generated(&generated, vec![vec![10]], &DESCRIPTORS);
    assert!(matches!(
        files.measurements.failure,
        Some(WriteFailure::NegativeTime)
    ));
    assert!(files.truth.is_none());
}

#[test]
fn measurements_make_the_round_trip() {
    let records = [lidar(1, 2), gps(0, 3), imu(3, 3)];
    let payloads = vec![vec![10], vec![], vec![30, 31]];
    let trip = write_and_read_measurements(&records, payloads.clone(), &DESCRIPTORS);
    assert!(trip.written.failure.is_none());
    let read = trip.read.unwrap();
    assert!(read.failure.is_none());
    assert_eq!(read.frames.len(), 3);
    for (index, frame) in read.frames.iter().enumerate() {
        assert_eq!(frame.kind, records[index].kind());
        assert_eq!(frame.data, payloads[index]);
    }

    let records = [imu(1, 2), gps(-1, 3)];
    let trip = write_and_read_measurements(&records, vec![vec![1], vec![2]], &DESCRIPTORS);
    assert!(matches!(trip.written.failure, Some(WriteFailure::NegativeTime)));
    let read = trip.read.unwrap();
    assert_eq!(read.frames.len(), 1);
    assert_eq!(read.frames[0].data, vec![1]);
}

#[test]
fn truth_makes_the_round_trip() {
    let trip = write_and_read_truth(
        &[EgoTruthState {
            time_ns: 1,
            content: vec![1],
        }],
        &[
            ObjectTruthState {
                time_ns: 1,
                content: vec![2],
            },
            ObjectTruthState {
                time_ns: 2,
                content: vec![3],
            },
        ],
        &[ImuBiasTruth {
            time_ns: 0,
            content: vec![4],
        }],
        &DESCRIPTORS,
    );
    assert!(trip.written.failure.is_none());
    let read = trip.read.unwrap();
    assert_eq!(read.ego.payloads, vec![vec![1]]);
    assert_eq!(read.objects.payloads, vec![vec![2], vec![3]]);
    assert_eq!(read.imu_bias.payloads, vec![vec![4]]);
    assert!(read.ego.failure.is_none());
    assert!(read.objects.failure.is_none());
    assert!(read.imu_bias.failure.is_none());
}

#[test]
fn estimates_and_tracks_make_the_round_trip() {
    let trip = write_and_read_ego_estimates(
        "mine",
        &[estimate(1, 2), estimate(3, 3)],
        vec![vec![5, 6], vec![7]],
        &DESCRIPTORS,
    );
    assert!(trip.written.failure.is_none());
    assert_eq!(trip.read.unwrap().payloads, vec![vec![5, 6], vec![7]]);

    let trip = write_and_read_tracks(
        "mine",
        &[ObjectTrackFrame {
            estimate_time_ns: 1,
            available_time_ns: 2,
            content: vec![9],
        }],
        &DESCRIPTORS,
    );
    assert!(trip.written.failure.is_none());
    assert_eq!(trip.read.unwrap().payloads, vec![vec![9]]);
}
