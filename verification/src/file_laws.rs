//! What the messages in the files of a run say, in fixed words and in terms of what is written.
use vstd::prelude::*;

use crate::bundle::{
    all_timed, bias_entries, ego_entries, estimate_entries, estimate_lanes, is_accepted,
    is_delivery, is_in_turn, is_measurement_file, is_measurement_reading, kind_named, lane_of,
    measurement_entries, measurement_entry, measurement_lanes, object_entries, payloads_of,
    track_entries, track_lanes, truth_entries, truth_lanes, MeasurementFile, MeasurementRecord,
    ReadFailure, RecordKind,
};
use crate::container::{
    container_items, fails_first, holds, is_intact, is_written, message_of, messages_of, readable,
    ChannelView, EntryView, LaneView, MessageView, StoredView, WriteFailure, WrittenFile,
};
use crate::messages::{
    EgoStateEstimate, EgoTruthState, ImuBiasTruth, MeasurementTime, ObjectTrackFrame,
    ObjectTruthState,
};

verus! {

// Names.

/// The names of the schemas of deliveries are fixed, and no other name stands for any.
pub proof fn law_schema_names_are_fixed(name: Seq<char>)
    ensures
        kind_named("fusion.ImuSample"@) == Some(RecordKind::Imu),
        kind_named("fusion.GpsFix"@) == Some(RecordKind::Gps),
        kind_named("fusion.CameraFrame"@) == Some(RecordKind::Camera),
        kind_named("fusion.LidarScan"@) == Some(RecordKind::Lidar),
        kind_named(name) is Some ==> name == "fusion.ImuSample"@ || name == "fusion.GpsFix"@ || name
            == "fusion.CameraFrame"@ || name == "fusion.LidarScan"@,
{
    reveal_strlit("fusion.ImuSample");
    reveal_strlit("fusion.GpsFix");
    reveal_strlit("fusion.CameraFrame");
    reveal_strlit("fusion.LidarScan");
    assert("fusion.ImuSample"@[7] == 'I');
    assert("fusion.GpsFix"@[7] == 'G');
    assert("fusion.CameraFrame"@[7] == 'C');
    assert("fusion.LidarScan"@[7] == 'L');
}

/// Whether a channel has the given schema and topic, with descriptors in protobuf.
pub open spec fn is_channel(
    channel: ChannelView,
    schema: Seq<char>,
    topic: Seq<char>,
    descriptors: Seq<u8>,
) -> bool {
    &&& channel.topic == topic
    &&& channel.message_encoding == "protobuf"@
    &&& channel.schema matches Some(found)
    &&& found.name == schema
    &&& found.encoding == "protobuf"@
    &&& found.data == descriptors
}

/// Whether a channel is the one for deliveries like `record`.
pub open spec fn is_channel_of(
    channel: ChannelView,
    record: MeasurementRecord,
    descriptors: Seq<u8>,
) -> bool {
    match record {
        MeasurementRecord::Imu(_) => is_channel(
            channel,
            "fusion.ImuSample"@,
            "/measurement/imu"@,
            descriptors,
        ),
        MeasurementRecord::Gps(_) => is_channel(
            channel,
            "fusion.GpsFix"@,
            "/measurement/gps"@,
            descriptors,
        ),
        MeasurementRecord::Camera(_) => is_channel(
            channel,
            "fusion.CameraFrame"@,
            "/measurement/camera"@,
            descriptors,
        ),
        MeasurementRecord::Lidar(_) => is_channel(
            channel,
            "fusion.LidarScan"@,
            "/measurement/lidar"@,
            descriptors,
        ),
    }
}

/// When a delivery was measured and when it arrived.
pub open spec fn times_of(record: MeasurementRecord) -> MeasurementTime {
    match record {
        MeasurementRecord::Imu(value) => value.time->0,
        MeasurementRecord::Gps(value) => value.time->0,
        MeasurementRecord::Camera(value) => value.time->0,
        MeasurementRecord::Lidar(value) => value.time->0,
    }
}

// Writing.

proof fn lemma_items(
    lanes: Seq<LaneView>,
    descriptors: Seq<u8>,
    entries: Seq<EntryView>,
    written: WrittenFile,
    index: int,
)
    requires
        is_written(lanes, descriptors, entries, written),
        written.failure is None,
        0 <= index < entries.len(),
    ensures
        container_items(written.bytes@).len() == entries.len(),
        container_items(written.bytes@)[index] == Some(
            message_of(lanes, descriptors, entries[index]),
        ),
        entries[index].has_times(),
{
    let messages = messages_of(lanes, descriptors, entries);
    let items = messages.map_values(|message: MessageView| Some(message));
    assert(container_items(written.bytes@) == items);
    assert(items[index] == Some(messages[index]));
}

/// The message of a delivery is on the channel of its sensor, is logged when the delivery arrived,
/// published when it was measured, numbered by its place, and carries its payload.
pub proof fn law_messages_of_deliveries(
    records: Seq<MeasurementRecord>,
    payloads: Seq<Vec<u8>>,
    descriptors: Seq<u8>,
    written: WrittenFile,
    index: int,
)
    requires
        all_timed(records),
        records.len() == payloads.len(),
        is_written(
            measurement_lanes(),
            descriptors,
            measurement_entries(records, payloads),
            written,
        ),
        written.failure is None,
        0 <= index < records.len(),
    ensures
        container_items(written.bytes@).len() == records.len(),
        container_items(written.bytes@)[index] matches Some(message) && {
            &&& is_channel_of(message.channel, records[index], descriptors)
            &&& message.sequence == index as u32
            &&& message.log_time == times_of(records[index]).arrival_time_ns
            &&& message.publish_time == times_of(records[index]).measurement_time_ns
            &&& message.data == payloads[index]@
        },
{
    let entries = measurement_entries(records, payloads);
    lemma_items(measurement_lanes(), descriptors, entries, written, index);
    assert(records[index].has_time());
    assert(entries[index] == measurement_entry(records[index], payloads[index]@, index));
    assert(measurement_lanes()[records[index].spec_kind().lane()] == lane_of(
        records[index].spec_kind(),
    ));
}

/// The message of a true state is on the channel for its kind, is logged and published at its
/// time, and is numbered among its kind. The vehicle comes first, then the objects, then the
/// biases.
pub proof fn law_messages_of_truth(
    ego: Seq<EgoTruthState>,
    objects: Seq<ObjectTruthState>,
    imu_bias: Seq<ImuBiasTruth>,
    descriptors: Seq<u8>,
    written: WrittenFile,
    index: int,
)
    requires
        is_written(truth_lanes(), descriptors, truth_entries(ego, objects, imu_bias), written),
        written.failure is None,
        0 <= index < ego.len() + objects.len() + imu_bias.len(),
    ensures
        container_items(written.bytes@).len() == ego.len() + objects.len() + imu_bias.len(),
        container_items(written.bytes@)[index] matches Some(message) && if index < ego.len() {
            let state = ego[index];
            &&& is_channel(
                message.channel,
                "fusion.EgoTruthState"@,
                "/truth/ego"@,
                descriptors,
            )
            &&& message.sequence == index as u32
            &&& message.log_time == state.time_ns
            &&& message.publish_time == state.time_ns
            &&& message.data == state.content@
        } else if index < ego.len() + objects.len() {
            let place = index - ego.len();
            let state = objects[place];
            &&& is_channel(
                message.channel,
                "fusion.ObjectTruthState"@,
                "/truth/objects"@,
                descriptors,
            )
            &&& message.sequence == place as u32
            &&& message.log_time == state.time_ns
            &&& message.publish_time == state.time_ns
            &&& message.data == state.content@
        } else {
            let place = index - ego.len() - objects.len();
            let state = imu_bias[place];
            &&& is_channel(
                message.channel,
                "fusion.ImuBiasTruth"@,
                "/truth/imu_bias"@,
                descriptors,
            )
            &&& message.sequence == place as u32
            &&& message.log_time == state.time_ns
            &&& message.publish_time == state.time_ns
            &&& message.data == state.content@
        },
{
    let entries = truth_entries(ego, objects, imu_bias);
    lemma_items(truth_lanes(), descriptors, entries, written, index);
    if index < ego.len() {
        assert(entries[index] == ego_entries(ego)[index]);
    } else if index < ego.len() + objects.len() {
        assert(entries[index] == object_entries(objects)[index - ego.len()]);
    } else {
        assert(entries[index] == bias_entries(imu_bias)[index - ego.len() - objects.len()]);
    }
}

/// The message of an estimate is on the filter's own channel, is logged when the estimate is
/// available, published at the time that it is about, and numbered by its place.
pub proof fn law_messages_of_estimates(
    name: Seq<char>,
    estimates: Seq<EgoStateEstimate>,
    payloads: Seq<Vec<u8>>,
    descriptors: Seq<u8>,
    written: WrittenFile,
    index: int,
)
    requires
        estimates.len() == payloads.len(),
        is_written(
            estimate_lanes(name),
            descriptors,
            estimate_entries(estimates, payloads),
            written,
        ),
        written.failure is None,
        0 <= index < estimates.len(),
    ensures
        container_items(written.bytes@).len() == estimates.len(),
        container_items(written.bytes@)[index] matches Some(message) && {
            &&& is_channel(
                message.channel,
                "fusion.EgoStateEstimate"@,
                "/estimate/ego/"@ + name,
                descriptors,
            )
            &&& message.sequence == index as u32
            &&& message.log_time == estimates[index].available_time_ns
            &&& message.publish_time == estimates[index].estimate_time_ns
            &&& message.data == payloads[index]@
        },
{
    let entries = estimate_entries(estimates, payloads);
    lemma_items(estimate_lanes(name), descriptors, entries, written, index);
}

/// The message of a tracker's frame is on the tracker's own channel, is logged when the frame is
/// available, published at the time that it is about, and numbered by its place.
pub proof fn law_messages_of_tracks(
    name: Seq<char>,
    frames: Seq<ObjectTrackFrame>,
    descriptors: Seq<u8>,
    written: WrittenFile,
    index: int,
)
    requires
        is_written(track_lanes(name), descriptors, track_entries(frames), written),
        written.failure is None,
        0 <= index < frames.len(),
    ensures
        container_items(written.bytes@).len() == frames.len(),
        container_items(written.bytes@)[index] matches Some(message) && {
            &&& is_channel(
                message.channel,
                "fusion.ObjectTrackFrame"@,
                "/track/object/"@ + name,
                descriptors,
            )
            &&& message.sequence == index as u32
            &&& message.log_time == frames[index].available_time_ns
            &&& message.publish_time == frames[index].estimate_time_ns
            &&& message.data == frames[index].content@
        },
{
    let entries = track_entries(frames);
    lemma_items(track_lanes(name), descriptors, entries, written, index);
}

/// A file of deliveries is written to its end only if no time in it is negative; and it is refused
/// for a negative time only if there is one, and then holds what stands before the first.
pub proof fn law_negative_times_end_a_file(
    records: Seq<MeasurementRecord>,
    payloads: Seq<Vec<u8>>,
    descriptors: Seq<u8>,
    written: WrittenFile,
)
    requires
        all_timed(records),
        records.len() == payloads.len(),
        is_written(
            measurement_lanes(),
            descriptors,
            measurement_entries(records, payloads),
            written,
        ),
    ensures
        written.failure is None ==> written.is_whole && forall|i: int|
            0 <= i < records.len() ==> times_of(#[trigger] records[i]).arrival_time_ns >= 0
                && times_of(records[i]).measurement_time_ns >= 0,
        written.failure matches Some(WriteFailure::NegativeTime) ==> exists|first: int|
            0 <= first < records.len() && (times_of(#[trigger] records[first]).arrival_time_ns < 0
                || times_of(records[first]).measurement_time_ns < 0) && (forall|i: int|
                0 <= i < first ==> times_of(#[trigger] records[i]).arrival_time_ns >= 0 && times_of(
                    records[i],
                ).measurement_time_ns >= 0) && (written.is_whole ==> container_items(
                written.bytes@,
            ).len() == first),
        written.failure matches Some(WriteFailure::Container(_)) ==> !written.is_whole,
{
    let entries = measurement_entries(records, payloads);
    assert forall|i: int| 0 <= i < records.len() implies (#[trigger] entries[i]).has_times() == (
    times_of(records[i]).arrival_time_ns >= 0 && times_of(records[i]).measurement_time_ns
        >= 0) by {
        assert(records[i].has_time());
    }
    if written.failure is None {
        assert forall|i: int| 0 <= i < records.len() implies times_of(
            #[trigger] records[i],
        ).arrival_time_ns >= 0 && times_of(records[i]).measurement_time_ns >= 0 by {
            assert(entries[i].has_times());
        }
    }
    if written.failure matches Some(WriteFailure::NegativeTime) {
        let first = choose|index: int| #[trigger]
            fails_first(entries, index) && (written.is_whole
                ==> holds(
                measurement_lanes(),
                descriptors,
                entries.take(index),
                written.bytes@,
            ));
        assert(!entries[first].has_times());
        assert forall|i: int| 0 <= i < first implies times_of(
            #[trigger] records[i],
        ).arrival_time_ns >= 0 && times_of(records[i]).measurement_time_ns >= 0 by {
            assert(entries[i].has_times());
        }
        assert(times_of(records[first]).arrival_time_ns < 0 || times_of(
            records[first],
        ).measurement_time_ns < 0);
    }
}

/// What a complete container holds are the entries from the first on, one message each, whether
/// it was written to its end or ended by a negative time.
pub proof fn law_every_message_is_an_entry(
    lanes: Seq<LaneView>,
    descriptors: Seq<u8>,
    entries: Seq<EntryView>,
    written: WrittenFile,
    index: int,
)
    requires
        is_written(lanes, descriptors, entries, written),
        written.is_whole,
        0 <= index < container_items(written.bytes@).len(),
    ensures
        index < entries.len(),
        written.failure is None ==> container_items(written.bytes@).len() == entries.len(),
        written.failure is Some ==> {
            let end = entries[container_items(written.bytes@).len() as int];
            &&& container_items(written.bytes@).len() < entries.len()
            &&& end.log_time_ns < 0 || end.publish_time_ns < 0
        },
        container_items(written.bytes@)[index] matches Some(message) && {
            let entry = entries[index];
            let lane = lanes[entry.lane];
            &&& is_channel(message.channel, lane.schema, lane.topic, descriptors)
            &&& message.sequence == entry.sequence
            &&& entry.log_time_ns <= i64::MAX ==> message.log_time == entry.log_time_ns
            &&& entry.publish_time_ns <= i64::MAX ==> message.publish_time
                == entry.publish_time_ns
            &&& message.data == entry.data
        },
{
    let items = container_items(written.bytes@);
    let end = if written.failure is None {
        entries.len() as int
    } else {
        choose|end: int| #[trigger]
            fails_first(entries, end) && holds(
                lanes,
                descriptors,
                entries.take(end),
                written.bytes@,
            )
    };
    let kept = entries.take(end);
    assert(entries.take(entries.len() as int) =~= entries);
    let messages = messages_of(lanes, descriptors, kept);
    assert(items == messages.map_values(|message: MessageView| Some(message)));
    assert(items[index] == Some(messages[index]));
    assert(messages[index] == message_of(lanes, descriptors, kept[index]));
    assert(kept[index] == entries[index]);
    assert(entries[index].has_times());
}

// Reading.

/// What can be read of a container are its messages before the first error, each with the name of
/// its schema, when it was logged, and its payload. It is intact if there is no error.
pub proof fn law_reading_stops_at_the_first_error(items: Seq<Option<MessageView>>, index: int)
    ensures
        readable(items).len() <= items.len(),
        is_intact(items) <==> readable(items).len() == items.len(),
        readable(items).len() < items.len() ==> items[readable(items).len() as int] is None,
        0 <= index < readable(items).len() ==> (items[index] matches Some(message) && {
            let read = readable(items)[index];
            &&& read.log_time == message.log_time
            &&& read.data == message.data
            &&& read.schema is Some <==> message.channel.schema is Some
            &&& message.channel.schema matches Some(schema) ==> read.schema == Some(schema.name)
        }),
    decreases items.len(),
{
    if items.len() > 0 && items[0] is Some {
        let rest = items.drop_first();
        law_reading_stops_at_the_first_error(rest, index - 1);
        assert(readable(items).len() == readable(rest).len() + 1);
        if readable(rest).len() < rest.len() {
            assert(items[readable(items).len() as int] == rest[readable(rest).len() as int]);
        } else if is_intact(rest) {
            assert forall|i: int| 0 <= i < items.len() implies (#[trigger] items[i]) is Some by {
                if i > 0 {
                    assert(rest[i - 1] is Some);
                }
            }
        }
        if index > 0 && index < readable(items).len() {
            assert(readable(items)[index] == readable(rest)[index - 1]);
            assert(rest[index - 1] == items[index]);
        }
    }
}

/// An error of the container is only reported where all deliveries before it were taken; a message
/// that is refused counts first. Nothing is reported if and only if all items are deliveries.
pub proof fn law_container_errors_come_last(
    items: Seq<Option<MessageView>>,
    file: MeasurementFile,
)
    requires
        is_measurement_reading(items, file),
    ensures
        file.failure is None ==> file.frames.len() == items.len(),
        file.failure matches Some(ReadFailure::Container(_)) ==> file.frames.len() < items.len()
            && items[file.frames.len() as int] is None,
        file.failure matches Some(failure) && !(failure is Container) ==> file.frames.len()
            < items.len() && items[file.frames.len() as int] is Some,
        forall|i: int|
            0 <= i < file.frames.len() ==> (#[trigger] items[i]) is Some && file.frames@[i].data@
                == items[i]->0.data,
{
    law_reading_stops_at_the_first_error(items, file.frames.len() as int);
    assert forall|i: int| 0 <= i < file.frames.len() implies (#[trigger] items[i]) is Some
        && file.frames@[i].data@ == items[i]->0.data by {
        law_reading_stops_at_the_first_error(items, i);
        assert(is_delivery(readable(items), i, file.frames@[i]));
    }
}

/// Whether a message can be a delivery: it names one of the four schemas.
pub open spec fn names_a_sensor(message: StoredView) -> bool {
    ||| message.schema == Some("fusion.ImuSample"@)
    ||| message.schema == Some("fusion.GpsFix"@)
    ||| message.schema == Some("fusion.CameraFrame"@)
    ||| message.schema == Some("fusion.LidarScan"@)
}

/// A delivery is read from the message at its place, as of the sensor that the schema names, with
/// the message's payload. It was logged no earlier than the one before it.
pub proof fn law_deliveries_are_read_by_their_schema(
    messages: Seq<StoredView>,
    file: MeasurementFile,
    index: int,
)
    requires
        is_measurement_file(messages, file),
        0 <= index < file.frames.len(),
    ensures
        index < messages.len(),
        file.frames@[index].data@ == messages[index].data,
        names_a_sensor(messages[index]),
        file.frames@[index].kind == RecordKind::Imu <==> messages[index].schema == Some(
            "fusion.ImuSample"@,
        ),
        file.frames@[index].kind == RecordKind::Gps <==> messages[index].schema == Some(
            "fusion.GpsFix"@,
        ),
        file.frames@[index].kind == RecordKind::Camera <==> messages[index].schema == Some(
            "fusion.CameraFrame"@,
        ),
        file.frames@[index].kind == RecordKind::Lidar <==> messages[index].schema == Some(
            "fusion.LidarScan"@,
        ),
        index > 0 ==> messages[index - 1].log_time <= messages[index].log_time,
{
    assert(is_delivery(messages, index, file.frames@[index]));
    law_schema_names_are_fixed(messages[index].schema->0);
}

/// A file is read to its end unless a message is logged before the one ahead of it, has no schema,
/// or names none of the four; the first such message ends it, and the failure says which of these
/// it was, the order of logging being tested first.
pub proof fn law_reading_stops_at_the_first_bad_message(
    messages: Seq<StoredView>,
    file: MeasurementFile,
)
    requires
        is_measurement_file(messages, file),
    ensures
        ({
            let end = file.frames.len() as int;
            match file.failure {
                None => end == messages.len(),
                Some(failure) => end < messages.len() && {
                    let early = end > 0 && messages[end].log_time < messages[end - 1].log_time;
                    &&& early || !names_a_sensor(messages[end])
                    &&& failure is OutOfOrder <==> early
                    &&& failure is NoSchema <==> !early && messages[end].schema is None
                    &&& failure is UnsupportedSchema <==> !early && messages[end].schema is Some
                    &&& failure matches ReadFailure::UnsupportedSchema { name } ==> Some(name@)
                        == messages[end].schema
                },
            }
        }),
{
    let end = file.frames.len() as int;
    if file.failure is Some {
        assert(!is_accepted(messages, end));
        assert(is_in_turn(messages, end) <==> !(end > 0 && messages[end].log_time < messages[end
            - 1].log_time));
        if messages[end].schema is Some {
            law_schema_names_are_fixed(messages[end].schema->0);
        }
    }
}

/// Reading by schema takes the payloads of exactly the messages with that schema, in order: one
/// more message adds its payload if it has the schema, and nothing otherwise.
pub proof fn law_reading_by_schema_takes_only_that(
    messages: Seq<StoredView>,
    message: StoredView,
    schema: Seq<char>,
)
    ensures
        payloads_of(Seq::<StoredView>::empty(), schema) == Seq::<Seq<u8>>::empty(),
        message.schema == Some(schema) ==> payloads_of(messages.push(message), schema)
            == payloads_of(messages, schema).push(message.data),
        message.schema != Some(schema) ==> payloads_of(messages.push(message), schema)
            == payloads_of(messages, schema),
{
    assert(messages.push(message).drop_last() =~= messages);
}

} // verus!
