//! What holds of experiments and scorings as a whole.
use vstd::prelude::*;

use crate::bundle::{
    all_timed, estimate_entries, estimate_lanes, is_measurement_reading, is_schema_reading,
    measurement_entries, measurement_lanes, payload_views, track_entries, track_lanes,
    MeasurementFile, MeasurementFrame, MeasurementRecord, RecordKind, SchemaFile,
};
use crate::bundle_laws::{
    arrive_in_order, law_estimates_are_read_back, law_measurements_are_read_back,
    law_tracks_are_read_back,
};
use crate::container::{container_items, is_written, WrittenFile};
use crate::estimator::measurement::EgoMeasurement;
use crate::experiment::{
    can_go, ego_part, follows, is_external_id, is_on_course, last_step, perception_places, place,
    score_follows, score_place, ExperimentDecision, ExperimentStep, ScoreDecision, ScoreOutcome,
    ScoreRejection, ScoreStep, StepOutcome,
};
use crate::messages::{EgoStateEstimate, ObjectTrackFrame};
use crate::progress::{score_makes, ScoreInput, ScoreProduct, ScoreProgress};

verus! {

// Experiments.

/// Whether `taken` are the steps of an experiment so far, each with how it went.
pub open spec fn is_experiment(
    first: ExperimentStep,
    build_visualization: bool,
    taken: Seq<(ExperimentStep, StepOutcome)>,
) -> bool {
    &&& taken.len() > 0 ==> follows(
        first,
        build_visualization,
        None,
        ExperimentDecision::Next(taken[0].0),
    )
    &&& forall|i: int, j: int|
        0 <= i < taken.len() && j == i + 1 && j < taken.len() ==> follows(
            first,
            build_visualization,
            Some(#[trigger] taken[i]),
            ExperimentDecision::Next((#[trigger] taken[j]).0),
        )
}

proof fn lemma_step_is_in_place(
    first: ExperimentStep,
    build_visualization: bool,
    taken: Seq<(ExperimentStep, StepOutcome)>,
    index: int,
)
    requires
        is_experiment(first, build_visualization, taken),
        place(first) <= place(last_step(build_visualization)),
        0 <= index < taken.len(),
    ensures
        place(taken[index].0) == place(first) + index,
        is_on_course(first, build_visualization, Some(taken[index])),
        index + 1 < taken.len() ==> taken[index].1 == StepOutcome::Succeeded,
    decreases index,
{
    if index > 0 {
        lemma_step_is_in_place(first, build_visualization, taken, index - 1);
        assert(follows(
            first,
            build_visualization,
            Some(taken[index - 1]),
            ExperimentDecision::Next(taken[index].0),
        ));
    }
    if index + 1 < taken.len() {
        assert(follows(
            first,
            build_visualization,
            Some(taken[index]),
            ExperimentDecision::Next(taken[index + 1].0),
        ));
    }
}

/// An experiment that is finished took every step, each once and in order, and each succeeded.
pub proof fn law_finished_experiments_took_every_step(
    first: ExperimentStep,
    build_visualization: bool,
    taken: Seq<(ExperimentStep, StepOutcome)>,
)
    requires
        place(first) <= place(last_step(build_visualization)),
        is_experiment(first, build_visualization, taken),
        taken.len() > 0,
        follows(first, build_visualization, Some(taken.last()), ExperimentDecision::Finished),
    ensures
        taken.len() == place(last_step(build_visualization)) - place(first) + 1,
        forall|i: int|
            0 <= i < taken.len() ==> place((#[trigger] taken[i]).0) == place(first) + i
                && taken[i].1 == StepOutcome::Succeeded,
{
    let end = taken.len() - 1;
    lemma_step_is_in_place(first, build_visualization, taken, end);
    assert forall|i: int| 0 <= i < taken.len() implies place((#[trigger] taken[i]).0) == place(
        first,
    ) + i && taken[i].1 == StepOutcome::Succeeded by {
        lemma_step_is_in_place(first, build_visualization, taken, i);
    }
}

// The file of deliveries and the stages.

/// Whether deliveries of a kind go to the filter.
pub open spec fn is_for_filter(kind: RecordKind) -> bool {
    kind == RecordKind::Imu || kind == RecordKind::Gps
}

/// The places of the kinds that go to the filter, or of those that do not.
pub open spec fn places_of(kinds: Seq<RecordKind>, for_filter: bool) -> Seq<int>
    decreases kinds.len(),
{
    if kinds.len() == 0 {
        Seq::empty()
    } else if is_for_filter(kinds.last()) == for_filter {
        places_of(kinds.drop_last(), for_filter).push(kinds.len() - 1)
    } else {
        places_of(kinds.drop_last(), for_filter)
    }
}

pub open spec fn kinds_of(records: Seq<MeasurementRecord>) -> Seq<RecordKind> {
    records.map_values(|record: MeasurementRecord| record.spec_kind())
}

pub open spec fn frame_kinds(frames: Seq<MeasurementFrame>) -> Seq<RecordKind> {
    frames.map_values(|frame: MeasurementFrame| frame.kind)
}

/// Whether a delivery to the filter is a record.
pub open spec fn is_ego_of(record: MeasurementRecord, measurement: EgoMeasurement) -> bool {
    match record {
        MeasurementRecord::Imu(value) => measurement == EgoMeasurement::Imu(value),
        MeasurementRecord::Gps(value) => measurement == EgoMeasurement::Gps(value),
        _ => false,
    }
}

/// Whether the delivery at `index` in `part` is the record at its place.
pub open spec fn is_taken_from(
    records: Seq<MeasurementRecord>,
    places: Seq<int>,
    part: Seq<EgoMeasurement>,
    index: int,
) -> bool {
    0 <= places[index] < records.len() && is_ego_of(records[places[index]], part[index])
}

proof fn lemma_parts_are_places(records: Seq<MeasurementRecord>)
    ensures
        perception_places(records) == places_of(kinds_of(records), false),
        ego_part(records).len() == places_of(kinds_of(records), true).len(),
        forall|i: int|
            0 <= i < ego_part(records).len() ==> #[trigger] is_taken_from(
                records,
                places_of(kinds_of(records), true),
                ego_part(records),
                i,
            ),
    decreases records.len(),
{
    let kinds = kinds_of(records);
    if records.len() > 0 {
        let rest = records.drop_last();
        lemma_parts_are_places(rest);
        assert(kinds.drop_last() =~= kinds_of(rest));
        assert(kinds.last() == records.last().spec_kind());
        assert forall|i: int| 0 <= i < ego_part(records).len() implies #[trigger] is_taken_from(
            records,
            places_of(kinds, true),
            ego_part(records),
            i,
        ) by {
            if i < ego_part(rest).len() {
                assert(is_taken_from(rest, places_of(kinds_of(rest), true), ego_part(rest), i));
            }
        }
    }
}

/// What the filter and the trackers get of the deliveries is what a reader of the file finds of
/// the IMU and GPS, and of the camera and lidar, in the order of the file.
pub proof fn law_stages_get_what_the_file_holds(
    records: Seq<MeasurementRecord>,
    payloads: Seq<Vec<u8>>,
    descriptors: Seq<u8>,
    written: WrittenFile,
    read: MeasurementFile,
)
    requires
        all_timed(records),
        arrive_in_order(records),
        records.len() == payloads.len(),
        is_written(
            measurement_lanes(),
            descriptors,
            measurement_entries(records, payloads),
            written,
        ),
        written.failure is None,
        is_measurement_reading(container_items(written.bytes@), read),
    ensures
        places_of(frame_kinds(read.frames@), false) == perception_places(records),
        places_of(frame_kinds(read.frames@), true).len() == ego_part(records).len(),
        forall|i: int|
            0 <= i < ego_part(records).len() ==> #[trigger] is_taken_from(
                records,
                places_of(frame_kinds(read.frames@), true),
                ego_part(records),
                i,
            ),
        forall|p: int|
            0 <= p < records.len() ==> (#[trigger] read.frames@[p]).data@ == payloads[p]@,
{
    law_measurements_are_read_back(records, payloads, descriptors, written, read);
    lemma_parts_are_places(records);
    assert(frame_kinds(read.frames@) =~= kinds_of(records));
}

// Scorings.

/// Whether `taken` are the steps of a scoring so far, each with how it went.
pub open spec fn is_scoring(id: Seq<char>, taken: Seq<(ScoreStep, ScoreOutcome)>) -> bool {
    &&& forall|i: int|
        0 <= i < taken.len() ==> can_go((#[trigger] taken[i]).0, taken[i].1)
    &&& taken.len() > 0 ==> score_follows(id, None, ScoreDecision::Next(taken[0].0))
    &&& forall|i: int, j: int|
        0 <= i < taken.len() && j == i + 1 && j < taken.len() ==> score_follows(
            id,
            Some(#[trigger] taken[i]),
            ScoreDecision::Next((#[trigger] taken[j]).0),
        )
}

proof fn lemma_score_step_is_in_place(
    id: Seq<char>,
    taken: Seq<(ScoreStep, ScoreOutcome)>,
    index: int,
)
    requires
        is_scoring(id, taken),
        0 <= index < taken.len(),
    ensures
        is_external_id(id),
        score_place(taken[index].0) == index,
        can_go(taken[index].0, taken[index].1),
        index + 1 < taken.len() ==> taken[index].1 != ScoreOutcome::Failed && taken[index].1 != (
        ScoreOutcome::Found { exists: true }) && !(taken[index].1 matches ScoreOutcome::Evaluated {
            matched,
            ..
        } && matched == 0),
    decreases index,
{
    if index > 0 {
        lemma_score_step_is_in_place(id, taken, index - 1);
        assert(score_follows(
            id,
            Some(taken[index - 1]),
            ScoreDecision::Next(taken[index].0),
        ));
    }
    if index + 1 < taken.len() {
        assert(score_follows(
            id,
            Some(taken[index]),
            ScoreDecision::Next(taken[index + 1].0),
        ));
    }
}

/// A scoring that is finished had a good name and no file in its way, read and wrote everything,
/// and something of what it read matched the truth.
pub proof fn law_finished_scorings_matched_something(
    id: Seq<char>,
    taken: Seq<(ScoreStep, ScoreOutcome)>,
)
    requires
        is_scoring(id, taken),
        taken.len() > 0,
        score_follows(id, Some(taken.last()), ScoreDecision::Finished),
    ensures
        is_external_id(id),
        taken.len() == score_place(ScoreStep::WriteReport) + 1,
        taken[score_place(ScoreStep::ReadCsv)] == (ScoreStep::ReadCsv, ScoreOutcome::Succeeded),
        taken[score_place(ScoreStep::LookUpDestination)] == (
            ScoreStep::LookUpDestination,
            ScoreOutcome::Found { exists: false },
        ),
        taken[score_place(ScoreStep::Evaluate)].1 matches ScoreOutcome::Evaluated { matched, .. }
            && matched > 0,
        taken[score_place(ScoreStep::WriteOutput)] == (
            ScoreStep::WriteOutput,
            ScoreOutcome::Succeeded,
        ),
        taken[score_place(ScoreStep::WriteReport)] == (
            ScoreStep::WriteReport,
            ScoreOutcome::Succeeded,
        ),
{
    lemma_score_step_is_in_place(id, taken, taken.len() - 1);
    lemma_score_step_is_in_place(id, taken, score_place(ScoreStep::ReadCsv));
    lemma_score_step_is_in_place(id, taken, score_place(ScoreStep::LookUpDestination));
    lemma_score_step_is_in_place(id, taken, score_place(ScoreStep::Evaluate));
    lemma_score_step_is_in_place(id, taken, score_place(ScoreStep::WriteOutput));
}

/// Where the file of an output is there already, as after an earlier scoring by the same name, the
/// scoring ends right there: it is refused, and neither the file nor the report is written.
pub proof fn law_existing_output_is_left_alone(
    id: Seq<char>,
    taken: Seq<(ScoreStep, ScoreOutcome)>,
    index: int,
    decision: ScoreDecision,
)
    requires
        is_scoring(id, taken),
        0 <= index < taken.len(),
        taken[index].1 == (ScoreOutcome::Found { exists: true }),
        score_follows(id, Some(taken.last()), decision),
    ensures
        decision == ScoreDecision::Rejected(ScoreRejection::AlreadyExists),
        forall|i: int|
            0 <= i < taken.len() ==> (#[trigger] taken[i]).0 != ScoreStep::WriteOutput && taken[i].0
                != ScoreStep::WriteReport,
{
    lemma_score_step_is_in_place(id, taken, index);
    assert forall|i: int| 0 <= i < taken.len() implies (#[trigger] taken[i]).0
        != ScoreStep::WriteOutput && taken[i].0 != ScoreStep::WriteReport by {
        lemma_score_step_is_in_place(id, taken, i);
    }
}

/// Whether `states` is how the progress of a scoring goes on: each step in turn makes what is its
/// own to make, and that is kept.
pub open spec fn is_score_progression<S, E, R, M>(
    states: Seq<ScoreProgress<S, E, R, M>>,
    products: Seq<ScoreProduct<S, E, R, M>>,
) -> bool {
    &&& states.len() == products.len() + 1
    &&& forall|i: int|
        0 <= i < products.len() ==> score_makes(i, #[trigger] products[i]) && states[i + 1]
            == states[i].with(products[i])
}

proof fn lemma_output_is_kept<S, E, R, M>(
    states: Seq<ScoreProgress<S, E, R, M>>,
    products: Seq<ScoreProduct<S, E, R, M>>,
    at: int,
)
    requires
        is_score_progression(states, products),
        score_place(ScoreStep::ReadCsv) < at < states.len(),
    ensures
        products[score_place(ScoreStep::ReadCsv)] is Output,
        states[at].output == Some(products[score_place(ScoreStep::ReadCsv)]->Output_0),
    decreases at,
{
    assert(score_makes(at - 1, products[at - 1]));
    if at - 1 > score_place(ScoreStep::ReadCsv) {
        lemma_output_is_kept(states, products, at - 1);
    }
}

/// What was read from the CSV file is what is evaluated and what is written.
pub proof fn law_what_was_read_is_scored_and_written<S, E, R, M>(
    states: Seq<ScoreProgress<S, E, R, M>>,
    products: Seq<ScoreProduct<S, E, R, M>>,
    evaluated: ScoreInput<S, E, R, M>,
    written: ScoreInput<S, E, R, M>,
)
    requires
        is_score_progression(states, products),
        states.len() > score_place(ScoreStep::WriteOutput),
        states[score_place(ScoreStep::Evaluate)].is_input(ScoreStep::Evaluate, evaluated),
        states[score_place(ScoreStep::WriteOutput)].is_input(ScoreStep::WriteOutput, written),
    ensures
        products[score_place(ScoreStep::ReadCsv)] is Output,
        *evaluated->Evaluation_output == products[score_place(ScoreStep::ReadCsv)]->Output_0,
        *written->Output_0 == products[score_place(ScoreStep::ReadCsv)]->Output_0,
{
    lemma_output_is_kept(states, products, score_place(ScoreStep::Evaluate));
    lemma_output_is_kept(states, products, score_place(ScoreStep::WriteOutput));
}

/// The file that a scoring of ego estimates leaves holds the estimates that it read, all of them
/// and in the same order.
pub proof fn law_scored_file_holds_the_estimates_read<S, R, M>(
    id: Seq<char>,
    states: Seq<ScoreProgress<S, Vec<EgoStateEstimate>, R, M>>,
    products: Seq<ScoreProduct<S, Vec<EgoStateEstimate>, R, M>>,
    input: ScoreInput<S, Vec<EgoStateEstimate>, R, M>,
    payloads: Seq<Vec<u8>>,
    descriptors: Seq<u8>,
    written: WrittenFile,
    read: SchemaFile,
)
    requires
        is_score_progression(states, products),
        states.len() > score_place(ScoreStep::WriteOutput),
        states[score_place(ScoreStep::WriteOutput)].is_input(ScoreStep::WriteOutput, input),
        input->Output_0.len() == payloads.len(),
        is_written(
            estimate_lanes(id),
            descriptors,
            estimate_entries(input->Output_0@, payloads),
            written,
        ),
        written.failure is None,
        is_schema_reading(
            container_items(written.bytes@),
            "fusion.EgoStateEstimate"@,
            read,
        ),
    ensures
        products[score_place(ScoreStep::ReadCsv)] == ScoreProduct::<
            S,
            Vec<EgoStateEstimate>,
            R,
            M,
        >::Output(*input->Output_0),
        read.failure is None,
        payload_views(read.payloads@) == payload_views(payloads),
{
    lemma_output_is_kept(states, products, score_place(ScoreStep::WriteOutput));
    law_estimates_are_read_back(id, input->Output_0@, payloads, descriptors, written, read);
}

/// The file that a scoring of tracks leaves holds the frames that it read, all of them and in the
/// same order.
pub proof fn law_scored_file_holds_the_tracks_read<S, R, M>(
    id: Seq<char>,
    states: Seq<ScoreProgress<S, Vec<ObjectTrackFrame>, R, M>>,
    products: Seq<ScoreProduct<S, Vec<ObjectTrackFrame>, R, M>>,
    input: ScoreInput<S, Vec<ObjectTrackFrame>, R, M>,
    descriptors: Seq<u8>,
    written: WrittenFile,
    read: SchemaFile,
)
    requires
        is_score_progression(states, products),
        states.len() > score_place(ScoreStep::WriteOutput),
        states[score_place(ScoreStep::WriteOutput)].is_input(ScoreStep::WriteOutput, input),
        is_written(track_lanes(id), descriptors, track_entries(input->Output_0@), written),
        written.failure is None,
        is_schema_reading(
            container_items(written.bytes@),
            "fusion.ObjectTrackFrame"@,
            read,
        ),
    ensures
        products[score_place(ScoreStep::ReadCsv)] == ScoreProduct::<
            S,
            Vec<ObjectTrackFrame>,
            R,
            M,
        >::Output(*input->Output_0),
        read.failure is None,
        payload_views(read.payloads@) == input->Output_0@.map_values(
            |frame: ObjectTrackFrame| frame.content@,
        ),
{
    lemma_output_is_kept(states, products, score_place(ScoreStep::WriteOutput));
    law_tracks_are_read_back(id, input->Output_0@, descriptors, written, read);
}

} // verus!
