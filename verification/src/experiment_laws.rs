//! What experiments and scorings do, step by step and in terms of what they are given.
use vstd::prelude::*;

use crate::bundle::{GeneratedRun, MeasurementRecord};
use crate::course_laws::{
    is_experiment, is_scoring, law_finished_experiments_took_every_step,
    law_finished_scorings_matched_something,
};
use crate::estimator::measurement::EgoMeasurement;
use crate::estimator::run::EstimatorRun;
use crate::estimator::schedule::count_below;
use crate::experiment::{
    can_go, ego_part, follows, follows_generation, generation_place, is_external_id,
    is_first_free, is_on_course, is_perception_part, perception_places, place, run_name,
    score_follows, score_place, ExperimentDecision, ExperimentStep, PerceptionMeasurement,
    ScoreDecision, ScoreOutcome, ScoreRejection, ScoreStep, ScoredOutput, StepOutcome,
};
use crate::number_laws::{are_digits, law_padding_keeps_the_number, value_of};
use crate::progress::{
    Progress, ScoreInput, ScoreProduct, ScoreProgress, StepInput, StepOutput,
};
use crate::text::padded_decimal;

verus! {

// The steps of an experiment.

/// The steps of an experiment that resolves its scenario and ends with a visualization.
pub open spec fn whole_course() -> Seq<ExperimentStep> {
    seq![
        ExperimentStep::ResolveScenario,
        ExperimentStep::PrepareOutput,
        ExperimentStep::GenerateMeasurements,
        ExperimentStep::EstimateEgo,
        ExperimentStep::RecordEstimatedEgo,
        ExperimentStep::TrackWithEstimatedEgo,
        ExperimentStep::RecordTruthEgo,
        ExperimentStep::TrackWithTruthEgo,
        ExperimentStep::CompareDetections,
        ExperimentStep::Evaluate,
        ExperimentStep::WriteGenerated,
        ExperimentStep::WriteEgoEstimates,
        ExperimentStep::WriteEstimatedEgoTracks,
        ExperimentStep::WriteTruthEgoTracks,
        ExperimentStep::WriteEstimatedEgoHistory,
        ExperimentStep::WriteTruthEgoHistory,
        ExperimentStep::WriteReports,
        ExperimentStep::Visualize,
    ]
}

proof fn lemma_course_is_in_place(step: ExperimentStep)
    ensures
        0 <= place(step) < whole_course().len(),
        whole_course()[place(step)] == step,
{
}

/// A finished experiment took the whole course: from the output on if its scenario was resolved
/// before, and without the visualization if none was asked for.
pub proof fn law_finished_experiments_took_the_course(
    resolves: bool,
    build_visualization: bool,
    taken: Seq<(ExperimentStep, StepOutcome)>,
)
    requires
        is_experiment(
            if resolves {
                ExperimentStep::ResolveScenario
            } else {
                ExperimentStep::PrepareOutput
            },
            build_visualization,
            taken,
        ),
        taken.len() > 0,
        follows(
            if resolves {
                ExperimentStep::ResolveScenario
            } else {
                ExperimentStep::PrepareOutput
            },
            build_visualization,
            Some(taken.last()),
            ExperimentDecision::Finished,
        ),
    ensures
        ({
            let start: int = if resolves {
                0
            } else {
                1
            };
            let end: int = if build_visualization {
                18
            } else {
                17
            };
            &&& taken.len() == end - start
            &&& forall|i: int|
                0 <= i < taken.len() ==> (#[trigger] taken[i]) == (
                    whole_course()[start + i],
                    StepOutcome::Succeeded,
                )
        }),
{
    let first = if resolves {
        ExperimentStep::ResolveScenario
    } else {
        ExperimentStep::PrepareOutput
    };
    law_finished_experiments_took_every_step(first, build_visualization, taken);
    assert forall|i: int| 0 <= i < taken.len() implies (#[trigger] taken[i]) == (
        whole_course()[place(first) + i],
        StepOutcome::Succeeded,
    ) by {
        lemma_course_is_in_place(taken[i].0);
    }
}

/// A step that fails ends an experiment, which names it; trackers that did not process the same
/// detections have an end of their own. No step that succeeds ends an experiment but its last.
pub proof fn law_failures_end_an_experiment(
    first: ExperimentStep,
    build_visualization: bool,
    step: ExperimentStep,
    outcome: StepOutcome,
    decision: ExperimentDecision,
)
    requires
        is_on_course(first, build_visualization, Some((step, outcome))),
        follows(first, build_visualization, Some((step, outcome)), decision),
    ensures
        decision is Next <==> outcome == StepOutcome::Succeeded && step != (
        if build_visualization {
            ExperimentStep::Visualize
        } else {
            ExperimentStep::WriteReports
        }),
        decision is Failed <==> outcome == StepOutcome::Failed && step
            != ExperimentStep::CompareDetections,
        decision matches ExperimentDecision::Failed(named) ==> named == step,
        decision == ExperimentDecision::DifferentDetections <==> outcome == StepOutcome::Failed
            && step == ExperimentStep::CompareDetections,
{
}

/// Whether `taken` are the steps so far where measurements are only generated.
pub open spec fn is_generation(taken: Seq<(ExperimentStep, StepOutcome)>) -> bool {
    &&& taken.len() > 0 ==> follows_generation(None, ExperimentDecision::Next(taken[0].0))
    &&& forall|i: int, j: int|
        0 <= i < taken.len() && j == i + 1 && j < taken.len() ==> follows_generation(
            Some(#[trigger] taken[i]),
            ExperimentDecision::Next((#[trigger] taken[j]).0),
        )
}

proof fn lemma_generation_is_in_place(taken: Seq<(ExperimentStep, StepOutcome)>, index: int)
    requires
        is_generation(taken),
        0 <= index < taken.len(),
    ensures
        generation_place(taken[index].0) == Some(index),
        index + 1 < taken.len() ==> taken[index].1 == StepOutcome::Succeeded,
    decreases index,
{
    if index > 0 {
        lemma_generation_is_in_place(taken, index - 1);
        assert(follows_generation(
            Some(taken[index - 1]),
            ExperimentDecision::Next(taken[index].0),
        ));
    }
    if index + 1 < taken.len() {
        assert(follows_generation(
            Some(taken[index]),
            ExperimentDecision::Next(taken[index + 1].0),
        ));
    }
}

/// Where measurements are only generated, the scenario is resolved, the output is prepared, and
/// what is generated is written.
pub proof fn law_finished_generations_wrote_what_they_generated(
    taken: Seq<(ExperimentStep, StepOutcome)>,
)
    requires
        is_generation(taken),
        taken.len() > 0,
        follows_generation(Some(taken.last()), ExperimentDecision::Finished),
    ensures
        taken == seq![
            (ExperimentStep::ResolveScenario, StepOutcome::Succeeded),
            (ExperimentStep::PrepareOutput, StepOutcome::Succeeded),
            (ExperimentStep::GenerateMeasurements, StepOutcome::Succeeded),
            (ExperimentStep::WriteGenerated, StepOutcome::Succeeded),
        ],
{
    lemma_generation_is_in_place(taken, taken.len() - 1);
    assert(taken.len() == 4);
    lemma_generation_is_in_place(taken, 0);
    lemma_generation_is_in_place(taken, 1);
    lemma_generation_is_in_place(taken, 2);
}

/// A step that fails ends a generation, which names it.
pub proof fn law_failures_end_a_generation(
    step: ExperimentStep,
    outcome: StepOutcome,
    decision: ExperimentDecision,
)
    requires
        generation_place(step) is Some,
        follows_generation(Some((step, outcome)), decision),
    ensures
        outcome == StepOutcome::Failed <==> decision == ExperimentDecision::Failed(step),
        decision == ExperimentDecision::Finished <==> outcome == StepOutcome::Succeeded && step
            == ExperimentStep::WriteGenerated,
{
}

// What goes to the filter and what goes to the trackers.

pub open spec fn is_for_the_filter(record: MeasurementRecord) -> bool {
    record is Imu || record is Gps
}

pub open spec fn is_for_the_trackers(record: MeasurementRecord) -> bool {
    record is Camera || record is Lidar
}

proof fn lemma_filter_part(records: Seq<MeasurementRecord>, count: int)
    requires
        0 <= count <= records.len(),
    ensures
        ({
            let part = ego_part(records.take(count));
            &&& part.len() == count_below(count, |k: int| is_for_the_filter(records[k]))
            &&& forall|i: int|
                0 <= i < count && is_for_the_filter(#[trigger] records[i]) ==> {
                    let at = count_below(i, |k: int| is_for_the_filter(records[k])) as int;
                    &&& at < part.len()
                    &&& records[i] matches MeasurementRecord::Imu(value) ==> part[at]
                        == EgoMeasurement::Imu(value)
                    &&& records[i] matches MeasurementRecord::Gps(value) ==> part[at]
                        == EgoMeasurement::Gps(value)
                }
        }),
    decreases count,
{
    if count > 0 {
        lemma_filter_part(records, count - 1);
        assert(records.take(count).drop_last() =~= records.take(count - 1));
        assert(records.take(count).last() == records[count - 1]);
    } else {
        assert(records.take(0) =~= Seq::empty());
    }
}

/// The filter gets every IMU and every GPS delivery, unchanged and in their order, and nothing
/// else.
pub proof fn law_the_filter_gets_the_imu_and_gps(records: Seq<MeasurementRecord>, index: int)
    requires
        0 <= index < records.len(),
    ensures
        ego_part(records).len() == count_below(
            records.len() as int,
            |k: int| is_for_the_filter(records[k]),
        ),
        is_for_the_filter(records[index]) ==> {
            let at = count_below(index, |k: int| is_for_the_filter(records[k])) as int;
            &&& at < ego_part(records).len()
            &&& records[index] matches MeasurementRecord::Imu(value) ==> ego_part(records)[at]
                == EgoMeasurement::Imu(value)
            &&& records[index] matches MeasurementRecord::Gps(value) ==> ego_part(records)[at]
                == EgoMeasurement::Gps(value)
        },
{
    lemma_filter_part(records, records.len() as int);
    assert(records.take(records.len() as int) =~= records);
}

proof fn lemma_tracker_places(records: Seq<MeasurementRecord>, count: int)
    requires
        0 <= count <= records.len(),
    ensures
        ({
            let places = perception_places(records.take(count));
            &&& places.len() == count_below(count, |k: int| is_for_the_trackers(records[k]))
            &&& forall|i: int|
                0 <= i < count && is_for_the_trackers(#[trigger] records[i]) ==> {
                    let at = count_below(i, |k: int| is_for_the_trackers(records[k])) as int;
                    at < places.len() && places[at] == i
                }
        }),
    decreases count,
{
    if count > 0 {
        lemma_tracker_places(records, count - 1);
        assert(records.take(count).drop_last() =~= records.take(count - 1));
        assert(records.take(count).last() == records[count - 1]);
    } else {
        assert(records.take(0) =~= Seq::empty());
    }
}

/// The trackers get every frame of the camera and every scan of the lidar, with its time and all
/// of its content, in their order, and nothing else.
pub proof fn law_trackers_get_the_camera_and_lidar(
    records: Seq<MeasurementRecord>,
    measurements: Seq<PerceptionMeasurement>,
    index: int,
)
    requires
        is_perception_part(records, measurements),
        0 <= index < records.len(),
    ensures
        measurements.len() == count_below(
            records.len() as int,
            |k: int| is_for_the_trackers(records[k]),
        ),
        is_for_the_trackers(records[index]) ==> {
            let at = count_below(index, |k: int| is_for_the_trackers(records[k])) as int;
            &&& at < measurements.len()
            &&& records[index] matches MeasurementRecord::Camera(frame) ==> (measurements[at]
                matches PerceptionMeasurement::Camera(copy) && copy.time == frame.time
                && copy.content@ == frame.content@)
            &&& records[index] matches MeasurementRecord::Lidar(scan) ==> (measurements[at]
                matches PerceptionMeasurement::Lidar(copy) && copy.time == scan.time
                && copy.content@ == scan.content@)
        },
{
    lemma_tracker_places(records, records.len() as int);
    assert(records.take(records.len() as int) =~= records);
    let places = perception_places(records);
    if is_for_the_trackers(records[index]) {
        let at = count_below(index, |k: int| is_for_the_trackers(records[k])) as int;
        assert(places[at] == index);
    }
}

// Where a run is stored.

/// A run goes by its number, written with at least three digits.
pub proof fn law_runs_go_by_their_number(number: nat)
    ensures
        run_name(number).len() >= 6,
        run_name(number).take(3) == seq!['r', 'u', 'n'],
        are_digits(run_name(number).skip(3)),
        value_of(run_name(number).skip(3)) == number,
        number < 1000 ==> run_name(number).len() == 6,
{
    reveal_strlit("run");
    law_padding_keeps_the_number(number, 3);
    assert(run_name(number).take(3) =~= seq!['r', 'u', 'n']);
    assert(run_name(number).skip(3) =~= padded_decimal(number, 3));
    if number < 1000 {
        reveal_with_fuel(crate::text::decimal, 4);
    }
}

/// The number of the next run is the lowest that is not in use. It is the only such number, and
/// once it is in use the next is higher.
pub proof fn law_the_lowest_free_number_is_next(
    occupied: Seq<bool>,
    number: int,
    other: int,
    later: int,
)
    requires
        is_first_free(occupied, number),
    ensures
        1 <= number <= occupied.len(),
        !occupied[number - 1],
        1 <= other < number ==> occupied[other - 1],
        is_first_free(occupied, other) ==> other == number,
        is_first_free(occupied.update(number - 1, true), later) ==> later > number,
{
    if is_first_free(occupied, other) {
        if other < number {
            assert(occupied[other - 1]);
        } else if number < other {
            assert(occupied[number - 1]);
        }
    }
    let after = occupied.update(number - 1, true);
    if is_first_free(after, later) && later <= number {
        assert(after[later - 1]);
    }
}

// Scoring what another program estimated.

/// The steps of a scoring.
pub open spec fn whole_scoring() -> Seq<ScoreStep> {
    seq![
        ScoreStep::ResolveScenario,
        ScoreStep::ReadCsv,
        ScoreStep::LookUpDestination,
        ScoreStep::ReadRun,
        ScoreStep::Evaluate,
        ScoreStep::WriteOutput,
        ScoreStep::WriteReport,
    ]
}

proof fn lemma_scoring_so_far(id: Seq<char>, taken: Seq<(ScoreStep, ScoreOutcome)>, index: int)
    requires
        is_scoring(id, taken),
        0 <= index < taken.len(),
    ensures
        score_place(taken[index].0) == index,
        index < whole_scoring().len(),
        taken[index].0 == whole_scoring()[index],
    decreases index,
{
    if index > 0 {
        lemma_scoring_so_far(id, taken, index - 1);
        assert(score_follows(
            id,
            Some(taken[index - 1]),
            ScoreDecision::Next(taken[index].0),
        ));
    }
}

/// Scorings take the same steps in the same order, as far as they come; a finished one took all.
pub proof fn law_scorings_take_their_steps_in_order(
    id: Seq<char>,
    taken: Seq<(ScoreStep, ScoreOutcome)>,
    index: int,
)
    requires
        is_scoring(id, taken),
        0 <= index < taken.len(),
    ensures
        taken.len() <= whole_scoring().len(),
        taken[index].0 == whole_scoring()[index],
        score_follows(id, Some(taken.last()), ScoreDecision::Finished) ==> taken.len()
            == whole_scoring().len(),
{
    lemma_scoring_so_far(id, taken, index);
    lemma_scoring_so_far(id, taken, taken.len() - 1);
    if score_follows(id, Some(taken.last()), ScoreDecision::Finished) {
        law_finished_scorings_matched_something(id, taken);
    }
}

/// Whether a name is made of letters, digits, hyphens and underscores, by their codes.
pub open spec fn is_plain_name(id: Seq<char>) -> bool {
    id.len() > 0 && forall|i: int|
        #![trigger id[i]]
        0 <= i < id.len() ==> {
            let code = id[i] as int;
            97 <= code <= 122 || 65 <= code <= 90 || 48 <= code <= 57 || code == 45 || code == 95
        }
}

/// The names that are accepted are the plain ones.
pub proof fn law_accepted_names_are_plain(id: Seq<char>)
    ensures
        is_external_id(id) <==> is_plain_name(id),
{
    if is_plain_name(id) {
        assert forall|i: int| 0 <= i < id.len() implies crate::experiment::is_id_char(
            #[trigger] id[i],
        ) by {
        }
    }
}

/// A scoring is refused for a name that is not plain, whatever was done; for an output that is
/// there already; and for one of which nothing matched, told by how many samples it had. A step
/// that fails ends it and is named.
pub proof fn law_scorings_are_refused_for_a_reason(
    id: Seq<char>,
    step: ScoreStep,
    outcome: ScoreOutcome,
    decision: ScoreDecision,
    samples: usize,
)
    requires
        can_go(step, outcome),
        score_follows(id, Some((step, outcome)), decision),
    ensures
        !is_plain_name(id) <==> decision == ScoreDecision::Rejected(ScoreRejection::InvalidId),
        is_plain_name(id) ==> (decision == ScoreDecision::Failed(step) <==> outcome
            == ScoreOutcome::Failed),
        is_plain_name(id) ==> (decision == ScoreDecision::Rejected(ScoreRejection::AlreadyExists)
            <==> outcome == (ScoreOutcome::Found { exists: true })),
        is_plain_name(id) ==> (decision == ScoreDecision::Rejected(
            ScoreRejection::NothingMatched { samples },
        ) <==> outcome == (ScoreOutcome::Evaluated { matched: 0, samples })),
        is_plain_name(id) ==> (decision == ScoreDecision::Finished <==> step
            == ScoreStep::WriteReport && outcome == ScoreOutcome::Succeeded),
{
    law_accepted_names_are_plain(id);
}

/// A scoring of a bad name is refused before its first step; any other starts with the scenario.
pub proof fn law_scorings_start_with_a_plain_name(id: Seq<char>, decision: ScoreDecision)
    requires
        score_follows(id, None, decision),
    ensures
        is_plain_name(id) ==> decision == ScoreDecision::Next(ScoreStep::ResolveScenario),
        !is_plain_name(id) ==> decision == ScoreDecision::Rejected(ScoreRejection::InvalidId),
{
    law_accepted_names_are_plain(id);
}

/// Estimates and tracks go to files that end alike, below directories of their own.
pub proof fn law_estimates_and_tracks_are_kept_apart(a: Seq<char>, b: Seq<char>)
    ensures
        ScoredOutput::EgoEstimates.spec_destination(a) == "estimates/"@ + a + ".mcap"@,
        ScoredOutput::Tracks.spec_destination(b) == "tracks/"@ + b + ".mcap"@,
        ScoredOutput::EgoEstimates.spec_destination(a) != ScoredOutput::Tracks.spec_destination(b),
{
    reveal_strlit("estimates/");
    reveal_strlit("tracks/");
    assert(ScoredOutput::EgoEstimates.spec_destination(a)[0] == 'e');
    assert(ScoredOutput::Tracks.spec_destination(b)[0] == 't');
}

// What the steps are given.

/// The progress of an experiment once every step has made what is its own to make.
pub open spec fn having_made<S, H, T, M>(
    start: Progress<S, H, T, M>,
    scenario: S,
    generated: GeneratedRun,
    run: EstimatorRun,
    histories: (H, H),
    trackers: (T, T),
    metrics: M,
) -> Progress<S, H, T, M> {
    start.with(StepOutput::Scenario(scenario)).with(StepOutput::Generated(generated)).with(
        StepOutput::EgoRun(run),
    ).with(StepOutput::EstimatedHistory(histories.0)).with(
        StepOutput::EstimatedTracks(trackers.0),
    ).with(StepOutput::TruthHistory(histories.1)).with(StepOutput::TruthTracks(trackers.1)).with(
        StepOutput::Metrics(metrics),
    )
}

/// Each step is given what the steps before it made: the filter the deliveries, the recordings of
/// the vehicle the estimates or the truth, each tracker its own recording, the evaluation and the
/// reports everything, and each pair of files the run of its own tracker, under its own name.
pub proof fn law_steps_are_given_what_was_made<S, H, T, M>(
    start: Progress<S, H, T, M>,
    scenario: S,
    generated: GeneratedRun,
    run: EstimatorRun,
    histories: (H, H),
    trackers: (T, T),
    metrics: M,
    step: ExperimentStep,
    input: StepInput<S, H, T, M>,
)
    requires
        having_made(
            start,
            scenario,
            generated,
            run,
            histories,
            trackers,
            metrics,
        ).is_input(step, input),
    ensures
        having_made(
            start,
            scenario,
            generated,
            run,
            histories,
            trackers,
            metrics,
        ).has_inputs(step),
        match step {
            ExperimentStep::ResolveScenario | ExperimentStep::Visualize => input is Nothing,
            ExperimentStep::PrepareOutput | ExperimentStep::GenerateMeasurements => input matches
                StepInput::Scenario(known) && *known == scenario,
            ExperimentStep::EstimateEgo => input matches StepInput::Deliveries {
                scenario: known,
                measurements,
            } && *known == scenario && measurements@ == ego_part(generated.measurements@),
            ExperimentStep::RecordEstimatedEgo | ExperimentStep::WriteEgoEstimates => input matches
                StepInput::Estimates(estimates) && *estimates == run.estimates,
            ExperimentStep::RecordTruthEgo => input matches StepInput::TruthStates(states)
                && *states == generated.ego_truth_states,
            ExperimentStep::TrackWithEstimatedEgo => input matches StepInput::Tracking {
                scenario: known,
                measurements,
                history,
            } && *known == scenario && is_perception_part(
                generated.measurements@,
                measurements@,
            ) && *history == histories.0,
            ExperimentStep::TrackWithTruthEgo => input matches StepInput::Tracking {
                scenario: known,
                measurements,
                history,
            } && *known == scenario && is_perception_part(
                generated.measurements@,
                measurements@,
            ) && *history == histories.1,
            ExperimentStep::CompareDetections => input matches StepInput::Trackers {
                estimated,
                truth,
            } && *estimated == trackers.0 && *truth == trackers.1,
            ExperimentStep::Evaluate => input matches StepInput::Evaluation {
                scenario: known,
                generated: made,
                estimates,
                estimated,
                truth,
            } && *known == scenario && *made == generated && *estimates == run.estimates
                && *estimated == trackers.0 && *truth == trackers.1,
            ExperimentStep::WriteGenerated => input matches StepInput::Generated(made) && *made
                == generated,
            ExperimentStep::WriteEstimatedEgoTracks
            | ExperimentStep::WriteEstimatedEgoHistory => input matches StepInput::Tracker {
                name,
                tracks,
            } && name@ == "estimated-ego"@ && *tracks == trackers.0,
            ExperimentStep::WriteTruthEgoTracks
            | ExperimentStep::WriteTruthEgoHistory => input matches StepInput::Tracker {
                name,
                tracks,
            } && name@ == "truth-ego"@ && *tracks == trackers.1,
            ExperimentStep::WriteReports => input matches StepInput::Report {
                metrics: found,
                ego_run,
                estimated,
                truth,
            } && *found == metrics && *ego_run == run && *estimated == trackers.0 && *truth
                == trackers.1,
        },
{
}

/// Which steps work on the scenario.
pub open spec fn uses_scenario(step: ExperimentStep) -> bool {
    ||| step == ExperimentStep::PrepareOutput
    ||| step == ExperimentStep::GenerateMeasurements
    ||| step == ExperimentStep::EstimateEgo
    ||| step == ExperimentStep::TrackWithEstimatedEgo
    ||| step == ExperimentStep::TrackWithTruthEgo
    ||| step == ExperimentStep::Evaluate
}

/// Which steps work on what was generated.
pub open spec fn uses_generated(step: ExperimentStep) -> bool {
    ||| step == ExperimentStep::EstimateEgo
    ||| step == ExperimentStep::TrackWithEstimatedEgo
    ||| step == ExperimentStep::RecordTruthEgo
    ||| step == ExperimentStep::TrackWithTruthEgo
    ||| step == ExperimentStep::Evaluate
    ||| step == ExperimentStep::WriteGenerated
}

/// Which steps work on the run of the filter.
pub open spec fn uses_ego_run(step: ExperimentStep) -> bool {
    ||| step == ExperimentStep::RecordEstimatedEgo
    ||| step == ExperimentStep::Evaluate
    ||| step == ExperimentStep::WriteEgoEstimates
    ||| step == ExperimentStep::WriteReports
}

/// Which steps work on the runs of both trackers.
pub open spec fn uses_both_trackers(step: ExperimentStep) -> bool {
    ||| step == ExperimentStep::CompareDetections
    ||| step == ExperimentStep::Evaluate
    ||| step == ExperimentStep::WriteReports
}

/// Which steps work on the run of the tracker with the estimated ego alone.
pub open spec fn uses_estimated_tracks(step: ExperimentStep) -> bool {
    ||| step == ExperimentStep::WriteEstimatedEgoTracks
    ||| step == ExperimentStep::WriteEstimatedEgoHistory
}

/// Which steps work on the run of the tracker with the true ego alone.
pub open spec fn uses_truth_tracks(step: ExperimentStep) -> bool {
    ||| step == ExperimentStep::WriteTruthEgoTracks
    ||| step == ExperimentStep::WriteTruthEgoHistory
}

/// A step needs what it works on and nothing else, so that part of an experiment can be run by
/// itself.
pub proof fn law_steps_need_only_what_they_work_on<S, H, T, M>(
    progress: Progress<S, H, T, M>,
    step: ExperimentStep,
)
    ensures
        progress.has_inputs(step) <==> {
            &&& uses_scenario(step) ==> progress.scenario is Some
            &&& uses_generated(step) ==> progress.generated is Some
            &&& uses_ego_run(step) ==> progress.ego_run is Some
            &&& step == ExperimentStep::TrackWithEstimatedEgo ==> progress.estimated_history
                is Some
            &&& step == ExperimentStep::TrackWithTruthEgo ==> progress.truth_history is Some
            &&& uses_both_trackers(step) || uses_estimated_tracks(step)
                ==> progress.estimated_tracks is Some
            &&& uses_both_trackers(step) || uses_truth_tracks(step) ==> progress.truth_tracks
                is Some
            &&& step == ExperimentStep::WriteReports ==> progress.metrics is Some
        },
{
}

/// Keeping what a step made changes that and nothing else.
pub proof fn law_keeping_one_thing_leaves_the_others<S, H, T, M>(
    progress: Progress<S, H, T, M>,
    output: StepOutput<S, H, T, M>,
)
    ensures
        ({
            let after = progress.with(output);
            &&& !(output is Scenario) ==> after.scenario == progress.scenario
            &&& !(output is Generated) ==> after.generated == progress.generated
            &&& !(output is EgoRun) ==> after.ego_run == progress.ego_run
            &&& !(output is EstimatedHistory) ==> after.estimated_history
                == progress.estimated_history
            &&& !(output is EstimatedTracks) ==> after.estimated_tracks
                == progress.estimated_tracks
            &&& !(output is TruthHistory) ==> after.truth_history == progress.truth_history
            &&& !(output is TruthTracks) ==> after.truth_tracks == progress.truth_tracks
            &&& !(output is Metrics) ==> after.metrics == progress.metrics
        }),
{
}

/// Keeping what a step of a scoring made changes that and nothing else, and a step of a scoring
/// needs what it works on and nothing else.
pub proof fn law_scorings_keep_and_need_one_thing_at_a_time<S, E, R, M>(
    progress: ScoreProgress<S, E, R, M>,
    product: ScoreProduct<S, E, R, M>,
    step: ScoreStep,
)
    ensures
        ({
            let after = progress.with(product);
            &&& !(product is Scenario) ==> after.scenario == progress.scenario
            &&& !(product is Output) ==> after.output == progress.output
            &&& !(product is Run) ==> after.run == progress.run
            &&& !(product is Metrics) ==> after.metrics == progress.metrics
        }),
        progress.has_inputs(step) <==> {
            &&& step == ScoreStep::Evaluate ==> progress.scenario is Some && progress.run is Some
            &&& step == ScoreStep::Evaluate || step == ScoreStep::WriteOutput
                ==> progress.output is Some
            &&& step == ScoreStep::WriteReport ==> progress.metrics is Some
        },
{
}

/// The steps of a scoring are given what the steps before them made: the evaluation what was read,
/// the output what another program estimated, and the report the metrics.
pub proof fn law_scorings_are_given_what_was_made<S, E, R, M>(
    start: ScoreProgress<S, E, R, M>,
    scenario: S,
    output: E,
    run: R,
    metrics: M,
    step: ScoreStep,
    input: ScoreInput<S, E, R, M>,
)
    requires
        start.with(ScoreProduct::Scenario(scenario)).with(ScoreProduct::Output(output)).with(
            ScoreProduct::Run(run),
        ).with(ScoreProduct::Metrics(metrics)).is_input(step, input),
    ensures
        start.with(ScoreProduct::Scenario(scenario)).with(ScoreProduct::Output(output)).with(
            ScoreProduct::Run(run),
        ).with(ScoreProduct::Metrics(metrics)).has_inputs(step),
        match step {
            ScoreStep::Evaluate => input matches ScoreInput::Evaluation {
                scenario: known,
                run: read,
                output: made,
            } && *known == scenario && *read == run && *made == output,
            ScoreStep::WriteOutput => input matches ScoreInput::Output(made) && *made == output,
            ScoreStep::WriteReport => input matches ScoreInput::Report(found) && *found == metrics,
            _ => input is Nothing,
        },
{
}

} // verus!
