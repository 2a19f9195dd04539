//! The course of an experiment: which work is done, in which order, and what is refused.
//!
//! The work itself reads and writes files. It is done outside; each function here is told how the
//! last piece of it went and says what comes next. What each piece is given is in
//! [`crate::progress`].
use vstd::prelude::*;

use crate::bundle::MeasurementRecord;
use crate::estimator::measurement::EgoMeasurement;
use crate::messages::{CameraFrame, LidarScan};
use crate::text::{count_text, decimal, law_padding_is_injective, padded_decimal, padded_text};

verus! {

// The steps of an experiment.

#[derive(Debug, Clone, Copy, PartialEq, Eq, Structural)]
pub enum ExperimentStep {
    ResolveScenario,
    PrepareOutput,
    GenerateMeasurements,
    EstimateEgo,
    RecordEstimatedEgo,
    TrackWithEstimatedEgo,
    RecordTruthEgo,
    TrackWithTruthEgo,
    /// Succeeds if both trackers processed the same detections.
    CompareDetections,
    Evaluate,
    WriteGenerated,
    WriteEgoEstimates,
    WriteEstimatedEgoTracks,
    WriteTruthEgoTracks,
    WriteEstimatedEgoHistory,
    WriteTruthEgoHistory,
    WriteReports,
    Visualize,
}

/// How a step went.
#[derive(Debug, Clone, Copy, PartialEq, Eq, Structural)]
pub enum StepOutcome {
    Succeeded,
    Failed,
}

/// What follows a step.
#[derive(Debug, Clone, Copy, PartialEq, Eq, Structural)]
pub enum ExperimentDecision {
    Next(ExperimentStep),
    Finished,
    /// The trackers cannot be compared.
    DifferentDetections,
    /// The error of the step is the error of the experiment.
    Failed(ExperimentStep),
}

/// The place of a step in an experiment.
pub open spec fn place(step: ExperimentStep) -> int {
    match step {
        ExperimentStep::ResolveScenario => 0,
        ExperimentStep::PrepareOutput => 1,
        ExperimentStep::GenerateMeasurements => 2,
        ExperimentStep::EstimateEgo => 3,
        ExperimentStep::RecordEstimatedEgo => 4,
        ExperimentStep::TrackWithEstimatedEgo => 5,
        ExperimentStep::RecordTruthEgo => 6,
        ExperimentStep::TrackWithTruthEgo => 7,
        ExperimentStep::CompareDetections => 8,
        ExperimentStep::Evaluate => 9,
        ExperimentStep::WriteGenerated => 10,
        ExperimentStep::WriteEgoEstimates => 11,
        ExperimentStep::WriteEstimatedEgoTracks => 12,
        ExperimentStep::WriteTruthEgoTracks => 13,
        ExperimentStep::WriteEstimatedEgoHistory => 14,
        ExperimentStep::WriteTruthEgoHistory => 15,
        ExperimentStep::WriteReports => 16,
        ExperimentStep::Visualize => 17,
    }
}

/// The last step of an experiment.
pub open spec fn last_step(build_visualization: bool) -> ExperimentStep {
    if build_visualization {
        ExperimentStep::Visualize
    } else {
        ExperimentStep::WriteReports
    }
}

/// Whether `decision` follows when the last step failed.
pub open spec fn follows_failure(step: ExperimentStep, decision: ExperimentDecision) -> bool {
    decision == if step == ExperimentStep::CompareDetections {
        ExperimentDecision::DifferentDetections
    } else {
        ExperimentDecision::Failed(step)
    }
}

/// Whether `decision` follows in an experiment: its steps are taken one after the other up to the
/// last, and the first that fails ends it.
pub open spec fn follows(
    first: ExperimentStep,
    build_visualization: bool,
    last: Option<(ExperimentStep, StepOutcome)>,
    decision: ExperimentDecision,
) -> bool {
    match last {
        None => decision == ExperimentDecision::Next(first),
        Some((step, StepOutcome::Failed)) => follows_failure(step, decision),
        Some((step, StepOutcome::Succeeded)) => if step == last_step(build_visualization) {
            decision == ExperimentDecision::Finished
        } else {
            decision matches ExperimentDecision::Next(next) && place(next) == place(step) + 1
        },
    }
}

/// Whether the last step is one that the experiment has.
pub open spec fn is_on_course(
    first: ExperimentStep,
    build_visualization: bool,
    last: Option<(ExperimentStep, StepOutcome)>,
) -> bool {
    last matches Some((step, _)) ==> place(first) <= place(step) <= place(
        last_step(build_visualization),
    )
}

fn ended(step: ExperimentStep) -> (decision: ExperimentDecision)
    ensures
        follows_failure(step, decision),
{
    match step {
        ExperimentStep::CompareDetections => ExperimentDecision::DifferentDetections,
        _ => ExperimentDecision::Failed(step),
    }
}

/// What follows in an experiment whose scenario is resolved.
pub fn run_resolved_experiment(
    last: Option<(ExperimentStep, StepOutcome)>,
    build_visualization: bool,
) -> (decision: ExperimentDecision)
    requires
        is_on_course(ExperimentStep::PrepareOutput, build_visualization, last),
    ensures
        follows(ExperimentStep::PrepareOutput, build_visualization, last, decision),
{
    let (step, outcome) = match last {
        None => {
            return ExperimentDecision::Next(ExperimentStep::PrepareOutput);
        },
        Some(last) => last,
    };
    if matches!(outcome, StepOutcome::Failed) {
        return ended(step);
    }
    let next = match step {
        ExperimentStep::ResolveScenario => ExperimentStep::PrepareOutput,
        ExperimentStep::PrepareOutput => ExperimentStep::GenerateMeasurements,
        ExperimentStep::GenerateMeasurements => ExperimentStep::EstimateEgo,
        ExperimentStep::EstimateEgo => ExperimentStep::RecordEstimatedEgo,
        ExperimentStep::RecordEstimatedEgo => ExperimentStep::TrackWithEstimatedEgo,
        ExperimentStep::TrackWithEstimatedEgo => ExperimentStep::RecordTruthEgo,
        ExperimentStep::RecordTruthEgo => ExperimentStep::TrackWithTruthEgo,
        ExperimentStep::TrackWithTruthEgo => ExperimentStep::CompareDetections,
        ExperimentStep::CompareDetections => ExperimentStep::Evaluate,
        ExperimentStep::Evaluate => ExperimentStep::WriteGenerated,
        ExperimentStep::WriteGenerated => ExperimentStep::WriteEgoEstimates,
        ExperimentStep::WriteEgoEstimates => ExperimentStep::WriteEstimatedEgoTracks,
        ExperimentStep::WriteEstimatedEgoTracks => ExperimentStep::WriteTruthEgoTracks,
        ExperimentStep::WriteTruthEgoTracks => ExperimentStep::WriteEstimatedEgoHistory,
        ExperimentStep::WriteEstimatedEgoHistory => ExperimentStep::WriteTruthEgoHistory,
        ExperimentStep::WriteTruthEgoHistory => ExperimentStep::WriteReports,
        ExperimentStep::WriteReports => {
            if !build_visualization {
                return ExperimentDecision::Finished;
            }
            ExperimentStep::Visualize
        },
        ExperimentStep::Visualize => {
            return ExperimentDecision::Finished;
        },
    };
    ExperimentDecision::Next(next)
}

/// What follows in an experiment, which ends with a visualization.
pub fn run_experiment(last: Option<(ExperimentStep, StepOutcome)>) -> (decision: ExperimentDecision)
    ensures
        follows(ExperimentStep::ResolveScenario, true, last, decision),
{
    match last {
        None => ExperimentDecision::Next(ExperimentStep::ResolveScenario),
        Some((ExperimentStep::ResolveScenario, StepOutcome::Succeeded)) => run_resolved_experiment(
            None,
            true,
        ),
        Some((ExperimentStep::ResolveScenario, StepOutcome::Failed)) => ended(
            ExperimentStep::ResolveScenario,
        ),
        Some(_) => run_resolved_experiment(last, true),
    }
}

/// The place of a step where measurements are only generated, if it is part of that.
pub open spec fn generation_place(step: ExperimentStep) -> Option<int> {
    match step {
        ExperimentStep::ResolveScenario => Some(0),
        ExperimentStep::PrepareOutput => Some(1),
        ExperimentStep::GenerateMeasurements => Some(2),
        ExperimentStep::WriteGenerated => Some(3),
        _ => None,
    }
}

/// Whether `decision` follows where measurements are only generated: the four steps are taken one
/// after the other, and the first that fails ends it.
pub open spec fn follows_generation(
    last: Option<(ExperimentStep, StepOutcome)>,
    decision: ExperimentDecision,
) -> bool {
    match last {
        None => decision matches ExperimentDecision::Next(next) && generation_place(next)
            == Some(0int),
        Some((step, StepOutcome::Failed)) => decision == ExperimentDecision::Failed(step),
        Some((step, StepOutcome::Succeeded)) => if step == ExperimentStep::WriteGenerated {
            decision == ExperimentDecision::Finished
        } else {
            decision matches ExperimentDecision::Next(next) && generation_place(next) == Some(
                generation_place(step)->0 + 1,
            )
        },
    }
}

/// What follows where measurements are only generated: the scenario is resolved, the output
/// prepared, and what was generated is written.
pub fn generate_bundle(last: Option<(ExperimentStep, StepOutcome)>) -> (decision:
    ExperimentDecision)
    requires
        last matches Some((step, _)) ==> generation_place(step) is Some,
    ensures
        follows_generation(last, decision),
{
    match last {
        None => ExperimentDecision::Next(ExperimentStep::ResolveScenario),
        Some((step, StepOutcome::Failed)) => ExperimentDecision::Failed(step),
        Some((step, StepOutcome::Succeeded)) => match step {
            ExperimentStep::ResolveScenario => ExperimentDecision::Next(
                ExperimentStep::PrepareOutput,
            ),
            ExperimentStep::PrepareOutput => ExperimentDecision::Next(
                ExperimentStep::GenerateMeasurements,
            ),
            ExperimentStep::GenerateMeasurements => ExperimentDecision::Next(
                ExperimentStep::WriteGenerated,
            ),
            _ => ExperimentDecision::Finished,
        },
    }
}

/// What is said where the trackers cannot be compared.
pub fn different_detections_message() -> (text: String)
    ensures
        text@ == "tracker comparison did not use identical detections"@,
{
    "tracker comparison did not use identical detections".to_owned()
}

/// Whether a step writes results.
pub open spec fn writes_results(step: ExperimentStep) -> bool {
    place(step) >= place(ExperimentStep::WriteGenerated)
}

/// Results are only written after the trackers were found to have processed the same detections,
/// and everything was evaluated: the first step that writes any comes right after those.
pub proof fn law_results_are_written_after_the_comparison(
    build_visualization: bool,
    step: ExperimentStep,
    next: ExperimentStep,
)
    requires
        is_on_course(
            ExperimentStep::ResolveScenario,
            build_visualization,
            Some((step, StepOutcome::Succeeded)),
        ),
        follows(
            ExperimentStep::ResolveScenario,
            build_visualization,
            Some((step, StepOutcome::Succeeded)),
            ExperimentDecision::Next(next),
        ),
        writes_results(next),
    ensures
        writes_results(step) || step == ExperimentStep::Evaluate,
        place(ExperimentStep::CompareDetections) < place(ExperimentStep::Evaluate) < place(next),
{
}

/// A step is followed by at most one other, and never by one that was taken before.
pub proof fn law_steps_are_taken_once(
    first: ExperimentStep,
    build_visualization: bool,
    step: ExperimentStep,
    outcome: StepOutcome,
    a: ExperimentDecision,
    b: ExperimentDecision,
)
    requires
        is_on_course(first, build_visualization, Some((step, outcome))),
        follows(first, build_visualization, Some((step, outcome)), a),
        follows(first, build_visualization, Some((step, outcome)), b),
    ensures
        a == b,
        a matches ExperimentDecision::Next(next) ==> place(next) > place(step) && is_on_course(
            first,
            build_visualization,
            Some((next, StepOutcome::Succeeded)),
        ),
{
}

/// Where measurements are only generated, a step is followed by at most one other, and that comes
/// later in a full experiment too.
pub proof fn law_generation_is_part_of_an_experiment(
    step: ExperimentStep,
    outcome: StepOutcome,
    a: ExperimentDecision,
    b: ExperimentDecision,
)
    requires
        generation_place(step) is Some,
        follows_generation(Some((step, outcome)), a),
        follows_generation(Some((step, outcome)), b),
    ensures
        a == b,
        a matches ExperimentDecision::Next(next) ==> place(next) > place(step)
            && generation_place(next) is Some,
{
}

// What goes to the filter and what goes to the trackers.

/// A delivery to a tracker.
#[derive(Debug)]
pub enum PerceptionMeasurement {
    Camera(CameraFrame),
    Lidar(LidarScan),
}

/// The deliveries to the filter, in order.
pub open spec fn ego_part(records: Seq<MeasurementRecord>) -> Seq<EgoMeasurement>
    decreases records.len(),
{
    if records.len() == 0 {
        Seq::empty()
    } else {
        let rest = ego_part(records.drop_last());
        match records.last() {
            MeasurementRecord::Imu(value) => rest.push(EgoMeasurement::Imu(value)),
            MeasurementRecord::Gps(value) => rest.push(EgoMeasurement::Gps(value)),
            _ => rest,
        }
    }
}

pub fn ego_measurements(records: &[MeasurementRecord]) -> (measurements: Vec<EgoMeasurement>)
    ensures
        measurements@ == ego_part(records@),
{
    let mut measurements: Vec<EgoMeasurement> = Vec::new();
    let mut index: usize = 0;
    assert(records@.take(0) =~= Seq::empty());
    while index < records.len()
        invariant
            index <= records.len(),
            measurements@ == ego_part(records@.take(index as int)),
        decreases records.len() - index,
    {
        proof {
            let taken = records@.take(index as int + 1);
            assert(taken.drop_last() =~= records@.take(index as int));
            assert(taken.last() == records@[index as int]);
        }
        match &records[index] {
            MeasurementRecord::Imu(value) => {
                measurements.push(EgoMeasurement::Imu(*value));
            },
            MeasurementRecord::Gps(value) => {
                measurements.push(EgoMeasurement::Gps(*value));
            },
            _ => {},
        }
        index = index + 1;
    }
    assert(records@.take(records@.len() as int) =~= records@);
    measurements
}

/// The places of the deliveries to the trackers, in order.
pub open spec fn perception_places(records: Seq<MeasurementRecord>) -> Seq<int>
    decreases records.len(),
{
    if records.len() == 0 {
        Seq::empty()
    } else {
        let rest = perception_places(records.drop_last());
        match records.last() {
            MeasurementRecord::Camera(_) => rest.push(records.len() - 1),
            MeasurementRecord::Lidar(_) => rest.push(records.len() - 1),
            _ => rest,
        }
    }
}

/// Whether a delivery to a tracker says the same as a record.
pub open spec fn is_perception_of(
    record: MeasurementRecord,
    measurement: PerceptionMeasurement,
) -> bool {
    match (record, measurement) {
        (MeasurementRecord::Camera(value), PerceptionMeasurement::Camera(copy)) => copy.time
            == value.time && copy.content@ == value.content@,
        (MeasurementRecord::Lidar(value), PerceptionMeasurement::Lidar(copy)) => copy.time
            == value.time && copy.content@ == value.content@,
        _ => false,
    }
}

/// Whether `measurements` are the deliveries to the trackers, in order.
pub open spec fn is_perception_part(
    records: Seq<MeasurementRecord>,
    measurements: Seq<PerceptionMeasurement>,
) -> bool {
    let places = perception_places(records);
    &&& measurements.len() == places.len()
    &&& forall|i: int|
        0 <= i < places.len() ==> is_perception_of(
            records[#[trigger] places[i]],
            measurements[i],
        )
}

/// Whether `measurements` are the deliveries to the trackers among the first `count` records.
spec fn is_perception_so_far(
    records: Seq<MeasurementRecord>,
    count: int,
    measurements: Seq<PerceptionMeasurement>,
) -> bool {
    let places = perception_places(records.take(count));
    &&& measurements.len() == places.len()
    &&& forall|i: int|
        0 <= i < places.len() ==> is_perception_of(
            records[#[trigger] places[i]],
            measurements[i],
        )
}

pub fn perception_measurements(records: &[MeasurementRecord]) -> (measurements: Vec<
    PerceptionMeasurement,
>)
    ensures
        is_perception_part(records@, measurements@),
{
    let mut measurements: Vec<PerceptionMeasurement> = Vec::new();
    let mut index: usize = 0;
    assert(records@.take(0) =~= Seq::empty());
    while index < records.len()
        invariant
            index <= records.len(),
            is_perception_so_far(records@, index as int, measurements@),
        decreases records.len() - index,
    {
        let ghost before = measurements@;
        let ghost places = perception_places(records@.take(index as int));
        proof {
            let taken = records@.take(index as int + 1);
            assert(taken.drop_last() =~= records@.take(index as int));
            assert(taken.last() == records@[index as int]);
        }
        match &records[index] {
            MeasurementRecord::Camera(value) => {
                measurements.push(
                    PerceptionMeasurement::Camera(
                        CameraFrame { time: value.time, content: value.content.clone() },
                    ),
                );
            },
            MeasurementRecord::Lidar(value) => {
                measurements.push(
                    PerceptionMeasurement::Lidar(
                        LidarScan { time: value.time, content: value.content.clone() },
                    ),
                );
            },
            _ => {},
        }
        proof {
            let now = perception_places(records@.take(index as int + 1));
            assert forall|i: int| 0 <= i < now.len() implies is_perception_of(
                records@[#[trigger] now[i]],
                measurements@[i],
            ) by {
                if i < places.len() {
                    assert(now[i] == places[i]);
                    assert(measurements@[i] == before[i]);
                }
            }
        }
        index = index + 1;
    }
    assert(records@.take(records@.len() as int) =~= records@);
    measurements
}

/// Every delivery goes either to the filter or to the trackers.
pub proof fn law_every_record_has_one_destination(records: Seq<MeasurementRecord>)
    ensures
        ego_part(records).len() + perception_places(records).len() == records.len(),
    decreases records.len(),
{
    if records.len() > 0 {
        law_every_record_has_one_destination(records.drop_last());
    }
}

// Where a run is stored.

/// The name of a numbered run.
pub open spec fn run_name(number: nat) -> Seq<char> {
    "run"@ + padded_decimal(number, 3)
}

/// What is known of the directory for the next run.
#[derive(Debug)]
pub enum RunPath {
    /// The first name that is not in use.
    Free { name: String },
    /// All names looked up so far are in use; this is the next to look up.
    Probe { name: String },
}

/// Whether `number` is that of the first run whose name is not in use. `occupied` says of the
/// first runs, from number one on, whether their names are.
pub open spec fn is_first_free(occupied: Seq<bool>, number: int) -> bool {
    &&& 1 <= number <= occupied.len()
    &&& !occupied[number - 1]
    &&& forall|i: int| 0 <= i < number - 1 ==> #[trigger] occupied[i]
}

/// Finds the name for the next run: the lowest number, from one on, that is not in use.
pub fn next_run_path(occupied: &[bool]) -> (path: RunPath)
    requires
        occupied.len() < u64::MAX,
    ensures
        match path {
            RunPath::Free { name } => exists|number: int| #[trigger]
                is_first_free(occupied@, number) && name@ == run_name(number as nat),
            RunPath::Probe { name } => (forall|i: int|
                0 <= i < occupied.len() ==> #[trigger] occupied@[i]) && name@ == run_name(
                (occupied.len() + 1) as nat,
            ),
        },
{
    let mut index: usize = 0;
    while index < occupied.len() && occupied[index]
        invariant
            index <= occupied.len(),
            forall|i: int| 0 <= i < index ==> #[trigger] occupied@[i],
        decreases occupied.len() - index,
    {
        index = index + 1;
    }
    let number: u64 = index as u64 + 1;
    let mut name = "run".to_owned();
    name.append(padded_text(number, 3).as_str());
    if index < occupied.len() {
        assert(is_first_free(occupied@, number as int));
        RunPath::Free { name }
    } else {
        RunPath::Probe { name }
    }
}

/// Different runs have different names.
pub proof fn law_run_names_are_distinct(a: nat, b: nat)
    requires
        run_name(a) == run_name(b),
    ensures
        a == b,
{
    let prefix = "run"@;
    let first = padded_decimal(a, 3);
    let second = padded_decimal(b, 3);
    assert(first =~= (prefix + first).skip(prefix.len() as int));
    assert(second =~= (prefix + second).skip(prefix.len() as int));
    law_padding_is_injective(a, b, 3);
}

/// Where an experiment is stored.
#[derive(Debug)]
pub enum RunTarget<P> {
    /// In the directory that was asked for.
    Given { path: P },
    /// In the next numbered directory below the given one.
    Numbered { root: String },
}

/// Decides where an experiment is stored: where it was asked for, or else below `runs`.
pub fn run_numbered_experiment<P>(output: Option<P>) -> (target: RunTarget<P>)
    ensures
        match output {
            Some(path) => target == (RunTarget::Given { path }),
            None => target matches RunTarget::Numbered { root } && root@ == "runs"@,
        },
{
    match output {
        Some(path) => RunTarget::Given { path },
        None => RunTarget::Numbered { root: "runs".to_owned() },
    }
}

// Scoring what another program estimated.

/// Whether a character may stand in the name of an estimate or of tracks from elsewhere.
pub open spec fn is_id_char(c: char) -> bool {
    ||| 'a' <= c <= 'z'
    ||| 'A' <= c <= 'Z'
    ||| '0' <= c <= '9'
    ||| c == '-'
    ||| c == '_'
}

/// Whether a name is one for an estimate or for tracks from elsewhere.
pub open spec fn is_external_id(id: Seq<char>) -> bool {
    id.len() > 0 && forall|i: int| 0 <= i < id.len() ==> is_id_char(#[trigger] id[i])
}

/// The name cannot be one for an estimate or for tracks from elsewhere.
#[derive(Debug, Clone, Copy, PartialEq, Eq, Structural)]
pub struct InvalidId;

impl InvalidId {
    pub fn message(&self) -> (text: String)
        ensures
            text@ == "ID must contain only letters, numbers, '-' and '_'"@,
    {
        "ID must contain only letters, numbers, '-' and '_'".to_owned()
    }
}

/// Tests the name of an estimate or of tracks from elsewhere.
pub fn validate_external_id(id: &str) -> (verdict: Result<(), InvalidId>)
    ensures
        verdict is Ok <==> is_external_id(id@),
{
    let length = id.unicode_len();
    if length == 0 {
        return Err(InvalidId);
    }
    let mut index: usize = 0;
    while index < length
        invariant
            length == id@.len(),
            index <= length,
            forall|i: int| 0 <= i < index ==> is_id_char(#[trigger] id@[i]),
        decreases length - index,
    {
        let c = id.get_char(index);
        let letter = ('a' <= c && c <= 'z') || ('A' <= c && c <= 'Z');
        let digit = '0' <= c && c <= '9';
        if !(letter || digit || c == '-' || c == '_') {
            return Err(InvalidId);
        }
        index = index + 1;
    }
    Ok(())
}

/// What another program estimated.
#[derive(Debug, Clone, Copy, PartialEq, Eq, Structural)]
pub enum ScoredOutput {
    EgoEstimates,
    Tracks,
}

#[derive(Debug, Clone, Copy, PartialEq, Eq, Structural)]
pub enum ScoreStep {
    ResolveScenario,
    ReadCsv,
    /// Look whether the file that the output would go to is there.
    LookUpDestination,
    ReadRun,
    Evaluate,
    WriteOutput,
    WriteReport,
}

/// How a step went.
#[derive(Debug, Clone, Copy, PartialEq, Eq, Structural)]
pub enum ScoreOutcome {
    Succeeded,
    Failed,
    /// The answer to [`ScoreStep::LookUpDestination`].
    Found { exists: bool },
    /// The answer to [`ScoreStep::Evaluate`]: how many samples there are, and how many of them
    /// matched the truth.
    Evaluated { matched: usize, samples: usize },
}

/// Why an output is not scored.
#[derive(Debug, Clone, Copy, PartialEq, Eq, Structural)]
pub enum ScoreRejection {
    InvalidId,
    AlreadyExists,
    NothingMatched { samples: usize },
}

/// What follows a step.
#[derive(Debug, Clone, Copy, PartialEq, Eq, Structural)]
pub enum ScoreDecision {
    Next(ScoreStep),
    Finished,
    Rejected(ScoreRejection),
    /// The error of the step is the error of the scoring.
    Failed(ScoreStep),
}

/// Whether a step can go that way.
pub open spec fn can_go(step: ScoreStep, outcome: ScoreOutcome) -> bool {
    match outcome {
        ScoreOutcome::Failed => step != ScoreStep::LookUpDestination,
        ScoreOutcome::Found { .. } => step == ScoreStep::LookUpDestination,
        ScoreOutcome::Evaluated { .. } => step == ScoreStep::Evaluate,
        ScoreOutcome::Succeeded => step != ScoreStep::LookUpDestination && step
            != ScoreStep::Evaluate,
    }
}

/// The place of a step in a scoring.
pub open spec fn score_place(step: ScoreStep) -> int {
    match step {
        ScoreStep::ResolveScenario => 0,
        ScoreStep::ReadCsv => 1,
        ScoreStep::LookUpDestination => 2,
        ScoreStep::ReadRun => 3,
        ScoreStep::Evaluate => 4,
        ScoreStep::WriteOutput => 5,
        ScoreStep::WriteReport => 6,
    }
}

/// Whether `decision` follows in a scoring. A bad name is refused before anything is done. An
/// output that is there already is refused, and so is one of which nothing matched the truth.
/// Otherwise the steps are taken one after the other.
pub open spec fn score_follows(
    id: Seq<char>,
    last: Option<(ScoreStep, ScoreOutcome)>,
    decision: ScoreDecision,
) -> bool {
    if !is_external_id(id) {
        decision == ScoreDecision::Rejected(ScoreRejection::InvalidId)
    } else {
        match last {
            None => decision == ScoreDecision::Next(ScoreStep::ResolveScenario),
            Some((step, ScoreOutcome::Failed)) => decision == ScoreDecision::Failed(step),
            Some((_, ScoreOutcome::Found { exists: true })) => decision == ScoreDecision::Rejected(
                ScoreRejection::AlreadyExists,
            ),
            Some((_, ScoreOutcome::Evaluated { matched: 0, samples })) => decision
                == ScoreDecision::Rejected(ScoreRejection::NothingMatched { samples }),
            Some((ScoreStep::WriteReport, _)) => decision == ScoreDecision::Finished,
            Some((step, _)) => decision matches ScoreDecision::Next(next) && score_place(next)
                == score_place(step) + 1,
        }
    }
}

fn score(id: &str, last: Option<(ScoreStep, ScoreOutcome)>) -> (decision: ScoreDecision)
    requires
        last matches Some((step, outcome)) ==> can_go(step, outcome),
    ensures
        score_follows(id@, last, decision),
{
    if validate_external_id(id).is_err() {
        return ScoreDecision::Rejected(ScoreRejection::InvalidId);
    }
    let (step, outcome) = match last {
        None => {
            return ScoreDecision::Next(ScoreStep::ResolveScenario);
        },
        Some(last) => last,
    };
    match outcome {
        ScoreOutcome::Failed => {
            return ScoreDecision::Failed(step);
        },
        ScoreOutcome::Found { exists } => {
            if exists {
                return ScoreDecision::Rejected(ScoreRejection::AlreadyExists);
            }
        },
        ScoreOutcome::Evaluated { matched, samples } => {
            if matched == 0 {
                return ScoreDecision::Rejected(ScoreRejection::NothingMatched { samples });
            }
        },
        ScoreOutcome::Succeeded => {},
    }
    match step {
        ScoreStep::ResolveScenario => ScoreDecision::Next(ScoreStep::ReadCsv),
        ScoreStep::ReadCsv => ScoreDecision::Next(ScoreStep::LookUpDestination),
        ScoreStep::LookUpDestination => ScoreDecision::Next(ScoreStep::ReadRun),
        ScoreStep::ReadRun => ScoreDecision::Next(ScoreStep::Evaluate),
        ScoreStep::Evaluate => ScoreDecision::Next(ScoreStep::WriteOutput),
        ScoreStep::WriteOutput => ScoreDecision::Next(ScoreStep::WriteReport),
        ScoreStep::WriteReport => ScoreDecision::Finished,
    }
}

/// What follows in scoring ego estimates from elsewhere.
pub fn score_ego_csv(id: &str, last: Option<(ScoreStep, ScoreOutcome)>) -> (decision: ScoreDecision)
    requires
        last matches Some((step, outcome)) ==> can_go(step, outcome),
    ensures
        score_follows(id@, last, decision),
{
    score(id, last)
}

/// What follows in scoring tracks from elsewhere.
pub fn score_tracks_csv(id: &str, last: Option<(ScoreStep, ScoreOutcome)>) -> (decision:
    ScoreDecision)
    requires
        last matches Some((step, outcome)) ==> can_go(step, outcome),
    ensures
        score_follows(id@, last, decision),
{
    score(id, last)
}

/// A file is only written for a good name, when no file was there, and when something matched
/// the truth.
pub proof fn law_only_matched_output_is_written(
    id: Seq<char>,
    step: ScoreStep,
    outcome: ScoreOutcome,
    decision: ScoreDecision,
)
    requires
        can_go(step, outcome),
        score_follows(id, Some((step, outcome)), decision),
    ensures
        decision == ScoreDecision::Next(ScoreStep::WriteOutput) <==> is_external_id(id) && (outcome
            matches ScoreOutcome::Evaluated { matched, .. } && matched > 0),
        decision == ScoreDecision::Next(ScoreStep::ReadRun) <==> is_external_id(id) && (outcome
            matches ScoreOutcome::Found { exists } && !exists),
        decision == ScoreDecision::Next(ScoreStep::WriteReport) <==> is_external_id(id) && step
            == ScoreStep::WriteOutput && outcome is Succeeded,
{
}

impl ScoredOutput {
    pub open spec fn directory(self) -> Seq<char> {
        match self {
            ScoredOutput::EgoEstimates => "estimates/"@,
            ScoredOutput::Tracks => "tracks/"@,
        }
    }

    pub open spec fn spec_destination(self, id: Seq<char>) -> Seq<char> {
        self.directory() + id + ".mcap"@
    }

    /// The file that an output goes to, below the directory of the run.
    pub fn destination(self, id: &str) -> (path: String)
        ensures
            path@ == self.spec_destination(id@),
    {
        let mut path = match self {
            ScoredOutput::EgoEstimates => "estimates/".to_owned(),
            ScoredOutput::Tracks => "tracks/".to_owned(),
        };
        path.append(id);
        path.append(".mcap");
        path
    }

    pub open spec fn spec_nothing_matched_message(
        self,
        samples: usize,
        gap_ms: Seq<char>,
    ) -> Seq<char> {
        match self {
            ScoredOutput::EgoEstimates => "cannot score ego output: 0 of "@ + decimal(
                samples as nat,
            ) + " estimates matched truth within "@ + gap_ms + " ms"@,
            ScoredOutput::Tracks => "cannot score track output: 0 of "@ + decimal(samples as nat)
                + " tracks matched truth within "@ + gap_ms + " ms"@,
        }
    }

    /// What is said where nothing matched the truth. `gap_ms` is the largest gap to the truth, in
    /// milliseconds, as text.
    pub fn nothing_matched_message(self, samples: usize, gap_ms: &str) -> (text: String)
        ensures
            text@ == self.spec_nothing_matched_message(samples, gap_ms@),
    {
        let (before, after) = match self {
            ScoredOutput::EgoEstimates => (
                "cannot score ego output: 0 of ",
                " estimates matched truth within ",
            ),
            ScoredOutput::Tracks => (
                "cannot score track output: 0 of ",
                " tracks matched truth within ",
            ),
        };
        let mut text = before.to_owned();
        text.append(count_text(samples).as_str());
        text.append(after);
        text.append(gap_ms);
        text.append(" ms");
        text
    }
}

/// What is said where a file is there already.
pub fn already_exists_message(path: &str) -> (text: String)
    ensures
        text@ == path@ + " already exists"@,
{
    let mut text = path.to_owned();
    text.append(" already exists");
    text
}

/// What is said where the directory of a new run is there already.
pub fn output_exists_message(path: &str) -> (text: String)
    ensures
        text@ == "output directory "@ + path@ + " already exists"@,
{
    let mut text = "output directory ".to_owned();
    text.append(path);
    text.append(" already exists");
    text
}

/// Different names go to different files.
pub proof fn law_destinations_are_distinct(output: ScoredOutput, a: Seq<char>, b: Seq<char>)
    requires
        output.spec_destination(a) == output.spec_destination(b),
    ensures
        a == b,
{
    let start = output.directory().len() as int;
    let (first, second) = (output.spec_destination(a), output.spec_destination(b));
    assert(first.len() == start + a.len() + ".mcap"@.len());
    assert(second.len() == start + b.len() + ".mcap"@.len());
    assert(a =~= first.subrange(start, start + a.len()));
    assert(b =~= second.subrange(start, start + b.len()));
}

} // verus!
