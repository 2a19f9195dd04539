//! What reading gives back of what was written.
use vstd::prelude::*;

use crate::bundle::{
    all_timed, bias_entries, ego_entries, estimate_entries, estimate_lanes, is_accepted,
    is_delivery, is_in_turn, is_measurement_reading, is_schema_reading, kind_named, lane_of,
    measurement_entries, measurement_entry, measurement_lanes, object_entries, payload_views,
    payloads_of, track_entries, track_lanes, truth_entries, truth_lanes, MeasurementFile,
    MeasurementRecord, RecordKind, SchemaFile,
};
use crate::container::{
    container_items, holds, is_intact, is_written, lemma_readable_messages, message_of, messages_of,
    readable, EntryView, LaneView, MessageView, StoredView, WrittenFile,
};
use crate::messages::{
    EgoStateEstimate, EgoTruthState, ImuBiasTruth, ObjectTrackFrame, ObjectTruthState,
};

verus! {

/// What a reader finds of an entry.
pub open spec fn stored_entry(
    lanes: Seq<LaneView>,
    descriptors: Seq<u8>,
    entry: EntryView,
) -> StoredView {
    message_of(lanes, descriptors, entry).stored()
}

/// What a reader finds of entries.
pub open spec fn stored_entries(
    lanes: Seq<LaneView>,
    descriptors: Seq<u8>,
    entries: Seq<EntryView>,
) -> Seq<StoredView> {
    entries.map_values(|entry: EntryView| stored_entry(lanes, descriptors, entry))
}

proof fn lemma_readable_entries(
    lanes: Seq<LaneView>,
    descriptors: Seq<u8>,
    entries: Seq<EntryView>,
    bytes: Seq<u8>,
)
    requires
        holds(lanes, descriptors, entries, bytes),
    ensures
        is_intact(container_items(bytes)),
        readable(container_items(bytes)) == stored_entries(lanes, descriptors, entries),
{
    let messages = messages_of(lanes, descriptors, entries);
    lemma_readable_messages(messages);
    assert(messages.map_values(|message: MessageView| message.stored()) =~= stored_entries(
        lanes,
        descriptors,
        entries,
    ));
}

/// Every kind of record is found again by the name of its schema.
pub proof fn law_kinds_have_names_of_their_own(kind: RecordKind)
    ensures
        kind_named(kind.spec_schema()) == Some(kind),
{
    reveal_strlit("fusion.ImuSample");
    reveal_strlit("fusion.GpsFix");
    reveal_strlit("fusion.CameraFrame");
    reveal_strlit("fusion.LidarScan");
    assert("fusion.ImuSample"@[7] == 'I');
    assert("fusion.GpsFix"@[7] == 'G');
    assert("fusion.CameraFrame"@[7] == 'C');
    assert("fusion.LidarScan"@[7] == 'L');
}

/// Whether records arrive one after the other.
pub open spec fn arrive_in_order(records: Seq<MeasurementRecord>) -> bool {
    forall|i: int, j: int|
        0 <= i < j < records.len() ==> (#[trigger] records[i]).optional_time()->0.arrival_time_ns
            <= (#[trigger] records[j]).optional_time()->0.arrival_time_ns
}

/// Deliveries that were written in the order of arrival are read back, all of them, in the same
/// order, each with its sensor and its payload.
pub proof fn law_measurements_are_read_back(
    records: Seq<MeasurementRecord>,
    payloads: Seq<Vec<u8>>,
    descriptors: Seq<u8>,
    written: WrittenFile,
    read: MeasurementFile,
)
    requires
        all_timed(records),
        arrive_in_order(records),
        records.len() == payloads.len(),
        is_written(
            measurement_lanes(),
            descriptors,
            measurement_entries(records, payloads),
            written,
        ),
        written.failure is None,
        is_measurement_reading(container_items(written.bytes@), read),
    ensures
        read.failure is None,
        read.frames.len() == records.len(),
        forall|i: int|
            0 <= i < records.len() ==> (#[trigger] read.frames@[i]).kind == records[i].spec_kind()
                && read.frames@[i].data@ == payloads[i]@,
{
    let entries = measurement_entries(records, payloads);
    let stored = stored_entries(measurement_lanes(), descriptors, entries);
    lemma_readable_entries(measurement_lanes(), descriptors, entries, written.bytes@);
    assert forall|i: int| 0 <= i < stored.len() implies #[trigger] is_accepted(stored, i)
        && kind_named(stored[i].schema->0) == Some(records[i].spec_kind()) && stored[i].data
        == payloads[i]@ by {
        lemma_stored_measurement(records, payloads, descriptors, i);
        if i > 0 {
            lemma_stored_measurement(records, payloads, descriptors, i - 1);
            assert(entries[i].has_times() && entries[i - 1].has_times());
            assert(records[i - 1].optional_time()->0.arrival_time_ns
                <= records[i].optional_time()->0.arrival_time_ns);
        }
    }
    if read.failure is Some {
        let refused = read.frames.len() as int;
        assert(!(read.failure->0 is Container));
        assert(is_accepted(stored, refused));
    }
    assert forall|i: int| 0 <= i < records.len() implies (#[trigger] read.frames@[i]).kind
        == records[i].spec_kind() && read.frames@[i].data@ == payloads[i]@ by {
        assert(is_delivery(stored, i, read.frames@[i]));
        assert(is_accepted(stored, i));
    }
}

proof fn lemma_stored_measurement(
    records: Seq<MeasurementRecord>,
    payloads: Seq<Vec<u8>>,
    descriptors: Seq<u8>,
    index: int,
)
    requires
        0 <= index < records.len(),
    ensures
        ({
            let entries = measurement_entries(records, payloads);
            let stored = stored_entries(measurement_lanes(), descriptors, entries)[index];
            let time = records[index].optional_time()->0;
            &&& stored.schema == Some(records[index].spec_kind().spec_schema())
            &&& kind_named(stored.schema->0) == Some(records[index].spec_kind())
            &&& stored.log_time == entries[index].log_time_ns as u64
            &&& entries[index].log_time_ns == time.arrival_time_ns
            &&& stored.data == payloads[index]@
        }),
{
    let entries = measurement_entries(records, payloads);
    assert(entries[index] == measurement_entry(records[index], payloads[index]@, index));
    law_kinds_have_names_of_their_own(records[index].spec_kind());
    assert(measurement_lanes()[records[index].spec_kind().lane()] == lane_of(
        records[index].spec_kind(),
    ));
}

/// Deliveries that were written out of the order of arrival are refused at the first that is out
/// of it; those before it are read back.
pub proof fn law_disordered_measurements_are_refused(
    records: Seq<MeasurementRecord>,
    payloads: Seq<Vec<u8>>,
    descriptors: Seq<u8>,
    written: WrittenFile,
    read: MeasurementFile,
    index: int,
)
    requires
        all_timed(records),
        records.len() == payloads.len(),
        is_written(
            measurement_lanes(),
            descriptors,
            measurement_entries(records, payloads),
            written,
        ),
        written.failure is None,
        is_measurement_reading(container_items(written.bytes@), read),
        0 < index < records.len(),
        arrive_in_order(records.take(index)),
        records[index].optional_time()->0.arrival_time_ns < records[index
            - 1].optional_time()->0.arrival_time_ns,
    ensures
        read.failure matches Some(failure) && failure is OutOfOrder,
        read.frames.len() == index,
{
    let entries = measurement_entries(records, payloads);
    let stored = stored_entries(measurement_lanes(), descriptors, entries);
    lemma_readable_entries(measurement_lanes(), descriptors, entries, written.bytes@);
    assert forall|i: int| 0 <= i < index implies #[trigger] is_accepted(stored, i) by {
        lemma_stored_measurement(records, payloads, descriptors, i);
        if i > 0 {
            lemma_stored_measurement(records, payloads, descriptors, i - 1);
            assert(entries[i].has_times() && entries[i - 1].has_times());
            assert(records.take(index)[i - 1] == records[i - 1]);
            assert(records.take(index)[i] == records[i]);
        }
    }
    lemma_stored_measurement(records, payloads, descriptors, index);
    lemma_stored_measurement(records, payloads, descriptors, index - 1);
    assert(entries[index].has_times() && entries[index - 1].has_times());
    assert(!is_in_turn(stored, index));
    let reached = read.frames.len() as int;
    if reached > index {
        assert(is_delivery(stored, index, read.frames@[index]));
    }
    if reached < index {
        assert(is_accepted(stored, reached));
    }
}

// Files that are read by schema.

proof fn lemma_payloads_split(a: Seq<StoredView>, b: Seq<StoredView>, schema: Seq<char>)
    ensures
        payloads_of(a + b, schema) == payloads_of(a, schema) + payloads_of(b, schema),
    decreases b.len(),
{
    if b.len() == 0 {
        assert(a + b =~= a);
        assert(payloads_of(a, schema) + payloads_of(b, schema) =~= payloads_of(a, schema));
    } else {
        lemma_payloads_split(a, b.drop_last(), schema);
        assert((a + b).drop_last() =~= a + b.drop_last());
        assert((a + b).last() == b.last());
        assert(payloads_of(a + b, schema) =~= payloads_of(a, schema) + payloads_of(b, schema));
    }
}

proof fn lemma_payloads_all(messages: Seq<StoredView>, schema: Seq<char>)
    requires
        forall|i: int|
            0 <= i < messages.len() ==> (#[trigger] messages[i]).schema == Some(schema),
    ensures
        payloads_of(messages, schema) == messages.map_values(|message: StoredView| message.data),
    decreases messages.len(),
{
    let data = messages.map_values(|message: StoredView| message.data);
    if messages.len() > 0 {
        let rest = messages.drop_last();
        lemma_payloads_all(rest, schema);
        assert(messages.last().schema == Some(schema)) by {
            assert(messages[messages.len() - 1].schema == Some(schema));
        }
        assert(data =~= rest.map_values(|message: StoredView| message.data).push(
            messages.last().data,
        ));
    } else {
        assert(data =~= Seq::empty());
    }
}

proof fn lemma_payloads_none(messages: Seq<StoredView>, schema: Seq<char>)
    requires
        forall|i: int|
            0 <= i < messages.len() ==> (#[trigger] messages[i]).schema != Some(schema),
    ensures
        payloads_of(messages, schema) == Seq::<Seq<u8>>::empty(),
    decreases messages.len(),
{
    if messages.len() > 0 {
        assert(messages[messages.len() - 1].schema != Some(schema));
        lemma_payloads_none(messages.drop_last(), schema);
    }
}

proof fn lemma_truth_schemas_differ()
    ensures
        "fusion.EgoTruthState"@ != "fusion.ObjectTruthState"@,
        "fusion.EgoTruthState"@ != "fusion.ImuBiasTruth"@,
        "fusion.ObjectTruthState"@ != "fusion.ImuBiasTruth"@,
{
    reveal_strlit("fusion.EgoTruthState");
    reveal_strlit("fusion.ObjectTruthState");
    reveal_strlit("fusion.ImuBiasTruth");
    assert("fusion.EgoTruthState"@[7] == 'E');
    assert("fusion.ObjectTruthState"@[7] == 'O');
    assert("fusion.ImuBiasTruth"@[7] == 'I');
}

/// The truth of a run is read back, each part on its own: the states of the vehicle, those of the
/// objects, and the biases.
pub proof fn law_truth_is_read_back(
    ego: Seq<EgoTruthState>,
    objects: Seq<ObjectTruthState>,
    imu_bias: Seq<ImuBiasTruth>,
    descriptors: Seq<u8>,
    written: WrittenFile,
    read_ego: SchemaFile,
    read_objects: SchemaFile,
    read_imu_bias: SchemaFile,
)
    requires
        is_written(truth_lanes(), descriptors, truth_entries(ego, objects, imu_bias), written),
        written.failure is None,
        is_schema_reading(
            container_items(written.bytes@),
            "fusion.EgoTruthState"@,
            read_ego,
        ),
        is_schema_reading(
            container_items(written.bytes@),
            "fusion.ObjectTruthState"@,
            read_objects,
        ),
        is_schema_reading(
            container_items(written.bytes@),
            "fusion.ImuBiasTruth"@,
            read_imu_bias,
        ),
    ensures
        read_ego.failure is None,
        read_objects.failure is None,
        read_imu_bias.failure is None,
        payload_views(read_ego.payloads@) == ego.map_values(
            |state: EgoTruthState| state.content@,
        ),
        payload_views(read_objects.payloads@) == objects.map_values(
            |state: ObjectTruthState| state.content@,
        ),
        payload_views(read_imu_bias.payloads@) == imu_bias.map_values(
            |state: ImuBiasTruth| state.content@,
        ),
{
    let lanes = truth_lanes();
    let entries = truth_entries(ego, objects, imu_bias);
    lemma_readable_entries(lanes, descriptors, entries, written.bytes@);
    lemma_truth_schemas_differ();
    let a = stored_entries(lanes, descriptors, ego_entries(ego));
    let b = stored_entries(lanes, descriptors, object_entries(objects));
    let c = stored_entries(lanes, descriptors, bias_entries(imu_bias));
    assert(stored_entries(lanes, descriptors, entries) =~= (a + b) + c);
    let ego_name = "fusion.EgoTruthState"@;
    let object_name = "fusion.ObjectTruthState"@;
    let bias_name = "fusion.ImuBiasTruth"@;
    assert(forall|i: int| 0 <= i < a.len() ==> (#[trigger] a[i]).schema == Some(ego_name));
    assert(forall|i: int| 0 <= i < b.len() ==> (#[trigger] b[i]).schema == Some(object_name));
    assert(forall|i: int| 0 <= i < c.len() ==> (#[trigger] c[i]).schema == Some(bias_name));
    lemma_payloads_split(a + b, c, ego_name);
    lemma_payloads_split(a, b, ego_name);
    lemma_payloads_split(a + b, c, object_name);
    lemma_payloads_split(a, b, object_name);
    lemma_payloads_split(a + b, c, bias_name);
    lemma_payloads_split(a, b, bias_name);
    lemma_payloads_all(a, ego_name);
    lemma_payloads_none(b, ego_name);
    lemma_payloads_none(c, ego_name);
    lemma_payloads_none(a, object_name);
    lemma_payloads_all(b, object_name);
    lemma_payloads_none(c, object_name);
    lemma_payloads_none(a, bias_name);
    lemma_payloads_none(b, bias_name);
    lemma_payloads_all(c, bias_name);
    assert(payloads_of((a + b) + c, ego_name) =~= ego.map_values(
        |state: EgoTruthState| state.content@,
    ));
    assert(payloads_of((a + b) + c, object_name) =~= objects.map_values(
        |state: ObjectTruthState| state.content@,
    ));
    assert(payloads_of((a + b) + c, bias_name) =~= imu_bias.map_values(
        |state: ImuBiasTruth| state.content@,
    ));
}

/// The estimates of a filter are read back, in the order in which they were written.
pub proof fn law_estimates_are_read_back(
    name: Seq<char>,
    estimates: Seq<EgoStateEstimate>,
    payloads: Seq<Vec<u8>>,
    descriptors: Seq<u8>,
    written: WrittenFile,
    read: SchemaFile,
)
    requires
        estimates.len() == payloads.len(),
        is_written(
            estimate_lanes(name),
            descriptors,
            estimate_entries(estimates, payloads),
            written,
        ),
        written.failure is None,
        is_schema_reading(
            container_items(written.bytes@),
            "fusion.EgoStateEstimate"@,
            read,
        ),
    ensures
        read.failure is None,
        payload_views(read.payloads@) == payload_views(payloads),
{
    let lanes = estimate_lanes(name);
    let entries = estimate_entries(estimates, payloads);
    lemma_readable_entries(lanes, descriptors, entries, written.bytes@);
    let stored = stored_entries(lanes, descriptors, entries);
    lemma_payloads_all(stored, "fusion.EgoStateEstimate"@);
    assert(stored.map_values(|message: StoredView| message.data) =~= payload_views(payloads));
}

/// The frames of a tracker are read back, in the order in which they were written.
pub proof fn law_tracks_are_read_back(
    name: Seq<char>,
    frames: Seq<ObjectTrackFrame>,
    descriptors: Seq<u8>,
    written: WrittenFile,
    read: SchemaFile,
)
    requires
        is_written(track_lanes(name), descriptors, track_entries(frames), written),
        written.failure is None,
        is_schema_reading(
            container_items(written.bytes@),
            "fusion.ObjectTrackFrame"@,
            read,
        ),
    ensures
        read.failure is None,
        payload_views(read.payloads@) == frames.map_values(
            |frame: ObjectTrackFrame| frame.content@,
        ),
{
    let lanes = track_lanes(name);
    let entries = track_entries(frames);
    lemma_readable_entries(lanes, descriptors, entries, written.bytes@);
    let stored = stored_entries(lanes, descriptors, entries);
    lemma_payloads_all(stored, "fusion.ObjectTrackFrame"@);
    assert(stored.map_values(|message: StoredView| message.data) =~= frames.map_values(
        |frame: ObjectTrackFrame| frame.content@,
    ));
}

} // verus!
