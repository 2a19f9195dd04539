//! Writing files and reading them back at once, so that what a file holds is known before it is
//! handed on.
use vstd::prelude::*;

use crate::bundle::{
    all_timed, estimate_entries, estimate_lanes, is_measurement_reading, is_schema_reading,
    measurement_entries, measurement_lanes, payload_views, read_ego_estimates, read_ego_truth,
    read_imu_bias_truth, read_measurements, read_object_truth, read_tracks, track_entries,
    track_lanes, truth_entries, truth_lanes, write_ego_estimates_file, write_measurements,
    write_tracks_file, write_truth, MeasurementFile, MeasurementRecord, SchemaFile, MAX_ID_LENGTH,
};
use crate::bundle_laws::{
    arrive_in_order, law_estimates_are_read_back, law_measurements_are_read_back,
    law_tracks_are_read_back, law_truth_is_read_back,
};
use crate::container::{
    container_items, is_written, reader_answers, EntryView, LaneView, WrittenFile,
};
use crate::messages::{
    EgoStateEstimate, EgoTruthState, ImuBiasTruth, ObjectTrackFrame, ObjectTruthState,
};

verus! {

/// A file of deliveries, and what reading it gives back. A file is only read where it
/// is a complete container.
#[derive(Debug)]
pub struct MeasurementRoundTrip {
    pub written: WrittenFile,
    pub read: Option<MeasurementFile>,
}

/// A file of payloads of one schema, and what reading it gives back.
#[derive(Debug)]
pub struct SchemaRoundTrip {
    pub written: WrittenFile,
    pub read: Option<SchemaFile>,
}

/// The three parts of a file of truth.
#[derive(Debug)]
pub struct TruthFile {
    pub ego: SchemaFile,
    pub objects: SchemaFile,
    pub imu_bias: SchemaFile,
}

/// A file of truth, and what reading it gives back.
#[derive(Debug)]
pub struct TruthRoundTrip {
    pub written: WrittenFile,
    pub read: Option<TruthFile>,
}

/// A complete file can be read.
proof fn lemma_written_is_readable(
    lanes: Seq<LaneView>,
    descriptors: Seq<u8>,
    entries: Seq<EntryView>,
    file: WrittenFile,
)
    requires
        is_written(lanes, descriptors, entries, file),
    ensures
        file.is_whole ==> reader_answers(file.bytes@),
{
}

/// Writes deliveries and reads them back. Where they were written whole and in the order of
/// arrival, all of them come back.
pub fn write_and_read_measurements(
    records: &[MeasurementRecord],
    payloads: Vec<Vec<u8>>,
    descriptors: &[u8],
) -> (trip: MeasurementRoundTrip)
    requires
        all_timed(records@),
        records.len() == payloads.len(),
        descriptors.len() <= u32::MAX,
    ensures
        is_written(
            measurement_lanes(),
            descriptors@,
            measurement_entries(records@, payloads@),
            trip.written,
        ),
        trip.read is Some <==> trip.written.is_whole,
        trip.read matches Some(read) ==> is_measurement_reading(
            container_items(trip.written.bytes@),
            read,
        ),
        trip.written.failure is None && arrive_in_order(records@) ==> {
            &&& trip.read matches Some(read)
            &&& read.failure is None
            &&& read.frames.len() == records.len()
            &&& forall|i: int|
                0 <= i < records.len() ==> (#[trigger] read.frames@[i]).kind
                    == records@[i].spec_kind() && read.frames@[i].data@ == payloads@[i]@
        },
{
    let ghost bytes_of = payloads@;
    let written = write_measurements(records, payloads, descriptors);
    proof {
        lemma_written_is_readable(
            measurement_lanes(),
            descriptors@,
            measurement_entries(records@, bytes_of),
            written,
        );
    }
    let read = if written.is_whole {
        Some(read_measurements(written.bytes.as_slice()))
    } else {
        None
    };
    proof {
        if written.failure is None && arrive_in_order(records@) {
            law_measurements_are_read_back(records@, bytes_of, descriptors@, written, read->0);
        }
    }
    MeasurementRoundTrip { written, read }
}

/// Writes the truth of a run and reads it back. Where it was written whole, all of it comes back.
pub fn write_and_read_truth(
    ego: &[EgoTruthState],
    objects: &[ObjectTruthState],
    imu_bias: &[ImuBiasTruth],
    descriptors: &[u8],
) -> (trip: TruthRoundTrip)
    requires
        descriptors.len() <= u32::MAX,
    ensures
        is_written(
            truth_lanes(),
            descriptors@,
            truth_entries(ego@, objects@, imu_bias@),
            trip.written,
        ),
        trip.read is Some <==> trip.written.is_whole,
        trip.read matches Some(read) ==> {
            let items = container_items(trip.written.bytes@);
            &&& is_schema_reading(items, "fusion.EgoTruthState"@, read.ego)
            &&& is_schema_reading(items, "fusion.ObjectTruthState"@, read.objects)
            &&& is_schema_reading(items, "fusion.ImuBiasTruth"@, read.imu_bias)
        },
        trip.written.failure is None ==> {
            &&& trip.read matches Some(read)
            &&& read.ego.failure is None
            &&& read.objects.failure is None
            &&& read.imu_bias.failure is None
            &&& payload_views(read.ego.payloads@) == ego@.map_values(
                |state: EgoTruthState| state.content@,
            )
            &&& payload_views(read.objects.payloads@) == objects@.map_values(
                |state: ObjectTruthState| state.content@,
            )
            &&& payload_views(read.imu_bias.payloads@) == imu_bias@.map_values(
                |state: ImuBiasTruth| state.content@,
            )
        },
{
    let written = write_truth(ego, objects, imu_bias, descriptors);
    proof {
        lemma_written_is_readable(
            truth_lanes(),
            descriptors@,
            truth_entries(ego@, objects@, imu_bias@),
            written,
        );
    }
    let read = if written.is_whole {
        Some(
            TruthFile {
                ego: read_ego_truth(written.bytes.as_slice()),
                objects: read_object_truth(written.bytes.as_slice()),
                imu_bias: read_imu_bias_truth(written.bytes.as_slice()),
            },
        )
    } else {
        None
    };
    proof {
        if written.failure is None {
            law_truth_is_read_back(
                ego@,
                objects@,
                imu_bias@,
                descriptors@,
                written,
                read->0.ego,
                read->0.objects,
                read->0.imu_bias,
            );
        }
    }
    TruthRoundTrip { written, read }
}

/// Writes the estimates of a filter and reads them back. Where they were written whole, all of
/// them come back in the same order.
pub fn write_and_read_ego_estimates(
    name: &str,
    estimates: &[EgoStateEstimate],
    payloads: Vec<Vec<u8>>,
    descriptors: &[u8],
) -> (trip: SchemaRoundTrip)
    requires
        estimates.len() == payloads.len(),
        descriptors.len() <= u32::MAX,
        name@.len() <= MAX_ID_LENGTH,
    ensures
        is_written(
            estimate_lanes(name@),
            descriptors@,
            estimate_entries(estimates@, payloads@),
            trip.written,
        ),
        trip.read is Some <==> trip.written.is_whole,
        trip.read matches Some(read) ==> is_schema_reading(
            container_items(trip.written.bytes@),
            "fusion.EgoStateEstimate"@,
            read,
        ),
        trip.written.failure is None ==> {
            &&& trip.read matches Some(read)
            &&& read.failure is None
            &&& payload_views(read.payloads@) == payload_views(payloads@)
        },
{
    let ghost bytes_of = payloads@;
    let written = write_ego_estimates_file(name, estimates, payloads, descriptors);
    proof {
        lemma_written_is_readable(
            estimate_lanes(name@),
            descriptors@,
            estimate_entries(estimates@, bytes_of),
            written,
        );
    }
    let read = if written.is_whole {
        Some(read_ego_estimates(written.bytes.as_slice()))
    } else {
        None
    };
    proof {
        if written.failure is None {
            law_estimates_are_read_back(
                name@,
                estimates@,
                bytes_of,
                descriptors@,
                written,
                read->0,
            );
        }
    }
    SchemaRoundTrip { written, read }
}

/// Writes the frames of a tracker and reads them back. Where they were written whole, all of them
/// come back in the same order.
pub fn write_and_read_tracks(name: &str, frames: &[ObjectTrackFrame], descriptors: &[u8]) -> (trip:
    SchemaRoundTrip)
    requires
        descriptors.len() <= u32::MAX,
        name@.len() <= MAX_ID_LENGTH,
    ensures
        is_written(track_lanes(name@), descriptors@, track_entries(frames@), trip.written),
        trip.read is Some <==> trip.written.is_whole,
        trip.read matches Some(read) ==> is_schema_reading(
            container_items(trip.written.bytes@),
            "fusion.ObjectTrackFrame"@,
            read,
        ),
        trip.written.failure is None ==> {
            &&& trip.read matches Some(read)
            &&& read.failure is None
            &&& payload_views(read.payloads@) == frames@.map_values(
                |frame: ObjectTrackFrame| frame.content@,
            )
        },
{
    let written = write_tracks_file(name, frames, descriptors);
    proof {
        lemma_written_is_readable(
            track_lanes(name@),
            descriptors@,
            track_entries(frames@),
            written,
        );
    }
    let read = if written.is_whole {
        Some(read_tracks(written.bytes.as_slice()))
    } else {
        None
    };
    proof {
        if written.failure is None {
            law_tracks_are_read_back(name@, frames@, descriptors@, written, read->0);
        }
    }
    SchemaRoundTrip { written, read }
}

} // verus!
