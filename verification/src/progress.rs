//! What the steps of an experiment are given, and what becomes of what they make.
//!
//! The scenario, the histories of the vehicle, the runs of the trackers and the metrics are only
//! carried from step to step, so their types are left open.
use vstd::prelude::*;

use crate::bundle::GeneratedRun;
use crate::estimator::measurement::EgoMeasurement;
use crate::estimator::run::EstimatorRun;
use crate::experiment::{
    ego_measurements, ego_part, is_perception_part, perception_measurements, place, score_place,
    ExperimentStep, PerceptionMeasurement, ScoreStep,
};
use crate::messages::{EgoStateEstimate, EgoTruthState};

verus! {

/// What an experiment has so far.
#[derive(Debug)]
pub struct Progress<S, H, T, M> {
    pub scenario: Option<S>,
    pub generated: Option<GeneratedRun>,
    pub ego_run: Option<EstimatorRun>,
    pub estimated_history: Option<H>,
    pub estimated_tracks: Option<T>,
    pub truth_history: Option<H>,
    pub truth_tracks: Option<T>,
    pub metrics: Option<M>,
}

/// What a step is given.
#[derive(Debug)]
pub enum StepInput<'a, S, H, T, M> {
    Nothing,
    Scenario(&'a S),
    /// The deliveries to the filter.
    Deliveries { scenario: &'a S, measurements: Vec<EgoMeasurement> },
    Estimates(&'a Vec<EgoStateEstimate>),
    TruthStates(&'a Vec<EgoTruthState>),
    /// The deliveries to a tracker, and where it takes the vehicle to be.
    Tracking { scenario: &'a S, measurements: Vec<PerceptionMeasurement>, history: &'a H },
    Trackers { estimated: &'a T, truth: &'a T },
    Evaluation {
        scenario: &'a S,
        generated: &'a GeneratedRun,
        estimates: &'a Vec<EgoStateEstimate>,
        estimated: &'a T,
        truth: &'a T,
    },
    Generated(&'a GeneratedRun),
    /// A run of a tracker and the name that its files go by.
    Tracker { name: &'static str, tracks: &'a T },
    Report { metrics: &'a M, ego_run: &'a EstimatorRun, estimated: &'a T, truth: &'a T },
}

/// What a step makes.
#[derive(Debug)]
pub enum StepOutput<S, H, T, M> {
    Nothing,
    Scenario(S),
    Generated(GeneratedRun),
    EgoRun(EstimatorRun),
    EstimatedHistory(H),
    EstimatedTracks(T),
    TruthHistory(H),
    TruthTracks(T),
    Metrics(M),
}

/// Whether the step at place `at` makes such a thing.
pub open spec fn makes<S, H, T, M>(at: int, output: StepOutput<S, H, T, M>) -> bool {
    match output {
        StepOutput::Nothing => {
            ||| at == place(ExperimentStep::PrepareOutput)
            ||| at == place(ExperimentStep::CompareDetections)
            ||| at > place(ExperimentStep::Evaluate)
        },
        StepOutput::Scenario(_) => at == place(ExperimentStep::ResolveScenario),
        StepOutput::Generated(_) => at == place(ExperimentStep::GenerateMeasurements),
        StepOutput::EgoRun(_) => at == place(ExperimentStep::EstimateEgo),
        StepOutput::EstimatedHistory(_) => at == place(ExperimentStep::RecordEstimatedEgo),
        StepOutput::EstimatedTracks(_) => at == place(ExperimentStep::TrackWithEstimatedEgo),
        StepOutput::TruthHistory(_) => at == place(ExperimentStep::RecordTruthEgo),
        StepOutput::TruthTracks(_) => at == place(ExperimentStep::TrackWithTruthEgo),
        StepOutput::Metrics(_) => at == place(ExperimentStep::Evaluate),
    }
}

impl<S, H, T, M> Progress<S, H, T, M> {
    /// An experiment that has nothing yet but possibly a scenario.
    pub fn new(scenario: Option<S>) -> (progress: Self)
        ensures
            progress.scenario == scenario,
            progress.generated is None,
            progress.ego_run is None,
            progress.estimated_history is None,
            progress.estimated_tracks is None,
            progress.truth_history is None,
            progress.truth_tracks is None,
            progress.metrics is None,
    {
        Progress {
            scenario,
            generated: None,
            ego_run: None,
            estimated_history: None,
            estimated_tracks: None,
            truth_history: None,
            truth_tracks: None,
            metrics: None,
        }
    }

    /// Whether everything is there that `step` works on.
    pub open spec fn has_inputs(self, step: ExperimentStep) -> bool {
        match step {
            ExperimentStep::ResolveScenario | ExperimentStep::Visualize => true,
            ExperimentStep::PrepareOutput
            | ExperimentStep::GenerateMeasurements => self.scenario is Some,
            ExperimentStep::EstimateEgo => self.scenario is Some && self.generated is Some,
            ExperimentStep::RecordEstimatedEgo
            | ExperimentStep::WriteEgoEstimates => self.ego_run is Some,
            ExperimentStep::TrackWithEstimatedEgo => self.scenario is Some && self.generated is Some
                && self.estimated_history is Some,
            ExperimentStep::RecordTruthEgo
            | ExperimentStep::WriteGenerated => self.generated is Some,
            ExperimentStep::TrackWithTruthEgo => self.scenario is Some && self.generated is Some
                && self.truth_history is Some,
            ExperimentStep::CompareDetections => self.estimated_tracks is Some
                && self.truth_tracks is Some,
            ExperimentStep::Evaluate => self.scenario is Some && self.generated is Some
                && self.ego_run is Some && self.estimated_tracks is Some
                && self.truth_tracks is Some,
            ExperimentStep::WriteEstimatedEgoTracks
            | ExperimentStep::WriteEstimatedEgoHistory => self.estimated_tracks is Some,
            ExperimentStep::WriteTruthEgoTracks
            | ExperimentStep::WriteTruthEgoHistory => self.truth_tracks is Some,
            ExperimentStep::WriteReports => self.metrics is Some && self.ego_run is Some
                && self.estimated_tracks is Some && self.truth_tracks is Some,
        }
    }

    /// Whether `input` is what `step` works on.
    pub open spec fn is_input(self, step: ExperimentStep, input: StepInput<S, H, T, M>) -> bool {
        match step {
            ExperimentStep::ResolveScenario | ExperimentStep::Visualize => input is Nothing,
            ExperimentStep::PrepareOutput
            | ExperimentStep::GenerateMeasurements => input matches StepInput::Scenario(scenario)
                && Some(*scenario) == self.scenario,
            ExperimentStep::EstimateEgo => input matches StepInput::Deliveries {
                scenario,
                measurements,
            } && Some(*scenario) == self.scenario && measurements@ == ego_part(
                self.generated->0.measurements@,
            ),
            ExperimentStep::RecordEstimatedEgo
            | ExperimentStep::WriteEgoEstimates => input matches StepInput::Estimates(estimates)
                && *estimates == self.ego_run->0.estimates,
            ExperimentStep::TrackWithEstimatedEgo => input matches StepInput::Tracking {
                scenario,
                measurements,
                history,
            } && Some(*scenario) == self.scenario && is_perception_part(
                self.generated->0.measurements@,
                measurements@,
            ) && Some(*history) == self.estimated_history,
            ExperimentStep::RecordTruthEgo => input matches StepInput::TruthStates(states)
                && *states == self.generated->0.ego_truth_states,
            ExperimentStep::TrackWithTruthEgo => input matches StepInput::Tracking {
                scenario,
                measurements,
                history,
            } && Some(*scenario) == self.scenario && is_perception_part(
                self.generated->0.measurements@,
                measurements@,
            ) && Some(*history) == self.truth_history,
            ExperimentStep::CompareDetections => input matches StepInput::Trackers {
                estimated,
                truth,
            } && Some(*estimated) == self.estimated_tracks && Some(*truth) == self.truth_tracks,
            ExperimentStep::Evaluate => input matches StepInput::Evaluation {
                scenario,
                generated,
                estimates,
                estimated,
                truth,
            } && Some(*scenario) == self.scenario && Some(*generated) == self.generated
                && *estimates == self.ego_run->0.estimates && Some(*estimated)
                == self.estimated_tracks && Some(*truth) == self.truth_tracks,
            ExperimentStep::WriteGenerated => input matches StepInput::Generated(generated)
                && Some(*generated) == self.generated,
            ExperimentStep::WriteEstimatedEgoTracks
            | ExperimentStep::WriteEstimatedEgoHistory => input matches StepInput::Tracker {
                name,
                tracks,
            } && name@ == "estimated-ego"@ && Some(*tracks) == self.estimated_tracks,
            ExperimentStep::WriteTruthEgoTracks
            | ExperimentStep::WriteTruthEgoHistory => input matches StepInput::Tracker {
                name,
                tracks,
            } && name@ == "truth-ego"@ && Some(*tracks) == self.truth_tracks,
            ExperimentStep::WriteReports => input matches StepInput::Report {
                metrics,
                ego_run,
                estimated,
                truth,
            } && Some(*metrics) == self.metrics && Some(*ego_run) == self.ego_run
                && Some(*estimated) == self.estimated_tracks && Some(*truth) == self.truth_tracks,
        }
    }

    /// What `step` works on, if all of it is there.
    pub fn input(&self, step: ExperimentStep) -> (input: Option<StepInput<'_, S, H, T, M>>)
        ensures
            input is Some <==> self.has_inputs(step),
            input matches Some(input) ==> self.is_input(step, input),
    {
        match step {
            ExperimentStep::ResolveScenario | ExperimentStep::Visualize => Some(
                StepInput::Nothing,
            ),
            ExperimentStep::PrepareOutput | ExperimentStep::GenerateMeasurements => match (
                &self.scenario
            ) {
                Some(scenario) => Some(StepInput::Scenario(scenario)),
                None => None,
            },
            ExperimentStep::EstimateEgo => match (&self.scenario, &self.generated) {
                (Some(scenario), Some(generated)) => Some(
                    StepInput::Deliveries {
                        scenario,
                        measurements: ego_measurements(generated.measurements.as_slice()),
                    },
                ),
                _ => None,
            },
            ExperimentStep::RecordEstimatedEgo | ExperimentStep::WriteEgoEstimates => match (
                &self.ego_run
            ) {
                Some(run) => Some(StepInput::Estimates(&run.estimates)),
                None => None,
            },
            ExperimentStep::TrackWithEstimatedEgo => self.tracking(&self.estimated_history),
            ExperimentStep::RecordTruthEgo => match &self.generated {
                Some(generated) => Some(StepInput::TruthStates(&generated.ego_truth_states)),
                None => None,
            },
            ExperimentStep::TrackWithTruthEgo => self.tracking(&self.truth_history),
            ExperimentStep::CompareDetections => match (
                &self.estimated_tracks,
                &self.truth_tracks,
            ) {
                (Some(estimated), Some(truth)) => Some(StepInput::Trackers { estimated, truth }),
                _ => None,
            },
            ExperimentStep::Evaluate => match (
                &self.scenario,
                &self.generated,
                &self.ego_run,
                &self.estimated_tracks,
                &self.truth_tracks,
            ) {
                (
                    Some(scenario),
                    Some(generated),
                    Some(run),
                    Some(estimated),
                    Some(truth),
                ) => Some(
                    StepInput::Evaluation {
                        scenario,
                        generated,
                        estimates: &run.estimates,
                        estimated,
                        truth,
                    },
                ),
                _ => None,
            },
            ExperimentStep::WriteGenerated => match &self.generated {
                Some(generated) => Some(StepInput::Generated(generated)),
                None => None,
            },
            ExperimentStep::WriteEstimatedEgoTracks
            | ExperimentStep::WriteEstimatedEgoHistory => match &self.estimated_tracks {
                Some(tracks) => Some(StepInput::Tracker { name: "estimated-ego", tracks }),
                None => None,
            },
            ExperimentStep::WriteTruthEgoTracks | ExperimentStep::WriteTruthEgoHistory => match (
                &self.truth_tracks
            ) {
                Some(tracks) => Some(StepInput::Tracker { name: "truth-ego", tracks }),
                None => None,
            },
            ExperimentStep::WriteReports => match (
                &self.metrics,
                &self.ego_run,
                &self.estimated_tracks,
                &self.truth_tracks,
            ) {
                (Some(metrics), Some(ego_run), Some(estimated), Some(truth)) => Some(
                    StepInput::Report { metrics, ego_run, estimated, truth },
                ),
                _ => None,
            },
        }
    }

    /// What a tracker works on that takes the vehicle to be where `history` says.
    fn tracking<'a>(&'a self, history: &'a Option<H>) -> (input: Option<
        StepInput<'a, S, H, T, M>,
    >)
        ensures
            input is Some <==> self.scenario is Some && self.generated is Some && history is Some,
            input matches Some(input) ==> input matches StepInput::Tracking {
                scenario,
                measurements,
                history: known,
            } && Some(*scenario) == self.scenario && is_perception_part(
                self.generated->0.measurements@,
                measurements@,
            ) && Some(*known) == *history,
    {
        match (&self.scenario, &self.generated, history) {
            (Some(scenario), Some(generated), Some(history)) => Some(
                StepInput::Tracking {
                    scenario,
                    measurements: perception_measurements(generated.measurements.as_slice()),
                    history,
                },
            ),
            _ => None,
        }
    }

    /// The progress once `output` has been made.
    pub open spec fn with(self, output: StepOutput<S, H, T, M>) -> Self {
        match output {
            StepOutput::Nothing => self,
            StepOutput::Scenario(scenario) => Progress { scenario: Some(scenario), ..self },
            StepOutput::Generated(generated) => Progress { generated: Some(generated), ..self },
            StepOutput::EgoRun(run) => Progress { ego_run: Some(run), ..self },
            StepOutput::EstimatedHistory(history) => Progress {
                estimated_history: Some(history),
                ..self
            },
            StepOutput::EstimatedTracks(tracks) => Progress {
                estimated_tracks: Some(tracks),
                ..self
            },
            StepOutput::TruthHistory(history) => Progress {
                truth_history: Some(history),
                ..self
            },
            StepOutput::TruthTracks(tracks) => Progress { truth_tracks: Some(tracks), ..self },
            StepOutput::Metrics(metrics) => Progress { metrics: Some(metrics), ..self },
        }
    }

    /// Keeps what a step made.
    pub fn keep(&mut self, output: StepOutput<S, H, T, M>)
        ensures
            *final(self) == old(self).with(output),
    {
        match output {
            StepOutput::Nothing => {},
            StepOutput::Scenario(scenario) => {
                self.scenario = Some(scenario);
            },
            StepOutput::Generated(generated) => {
                self.generated = Some(generated);
            },
            StepOutput::EgoRun(run) => {
                self.ego_run = Some(run);
            },
            StepOutput::EstimatedHistory(history) => {
                self.estimated_history = Some(history);
            },
            StepOutput::EstimatedTracks(tracks) => {
                self.estimated_tracks = Some(tracks);
            },
            StepOutput::TruthHistory(history) => {
                self.truth_history = Some(history);
            },
            StepOutput::TruthTracks(tracks) => {
                self.truth_tracks = Some(tracks);
            },
            StepOutput::Metrics(metrics) => {
                self.metrics = Some(metrics);
            },
        }
    }

    /// Whether everything is there that the steps before place `at` make.
    pub open spec fn has_reached(self, at: int) -> bool {
        &&& at > place(ExperimentStep::ResolveScenario) ==> self.scenario is Some
        &&& at > place(ExperimentStep::GenerateMeasurements) ==> self.generated is Some
        &&& at > place(ExperimentStep::EstimateEgo) ==> self.ego_run is Some
        &&& at > place(ExperimentStep::RecordEstimatedEgo) ==> self.estimated_history is Some
        &&& at > place(ExperimentStep::TrackWithEstimatedEgo) ==> self.estimated_tracks is Some
        &&& at > place(ExperimentStep::RecordTruthEgo) ==> self.truth_history is Some
        &&& at > place(ExperimentStep::TrackWithTruthEgo) ==> self.truth_tracks is Some
        &&& at > place(ExperimentStep::Evaluate) ==> self.metrics is Some
    }

    /// Whether `later` still has what the steps before place `at` made.
    pub open spec fn is_kept_from(self, at: int, later: Self) -> bool {
        &&& at > place(ExperimentStep::ResolveScenario) ==> later.scenario == self.scenario
        &&& at > place(ExperimentStep::GenerateMeasurements) ==> later.generated == self.generated
        &&& at > place(ExperimentStep::EstimateEgo) ==> later.ego_run == self.ego_run
        &&& at > place(ExperimentStep::RecordEstimatedEgo) ==> later.estimated_history
            == self.estimated_history
        &&& at > place(ExperimentStep::TrackWithEstimatedEgo) ==> later.estimated_tracks
            == self.estimated_tracks
        &&& at > place(ExperimentStep::RecordTruthEgo) ==> later.truth_history
            == self.truth_history
        &&& at > place(ExperimentStep::TrackWithTruthEgo) ==> later.truth_tracks
            == self.truth_tracks
        &&& at > place(ExperimentStep::Evaluate) ==> later.metrics == self.metrics
    }
}

/// Every step that comes in its turn finds all that it works on, and leaves all that the next one
/// needs.
pub proof fn law_every_step_finds_its_inputs<S, H, T, M>(
    progress: Progress<S, H, T, M>,
    step: ExperimentStep,
    output: StepOutput<S, H, T, M>,
)
    requires
        progress.has_reached(place(step)),
        makes(place(step), output),
    ensures
        progress.has_inputs(step),
        progress.with(output).has_reached(place(step) + 1),
{
}

/// Whether `states` is how the progress of an experiment goes on: from the step at place `start`
/// each step in turn makes what is its own to make, and that is kept.
pub open spec fn is_progression<S, H, T, M>(
    start: int,
    states: Seq<Progress<S, H, T, M>>,
    outputs: Seq<StepOutput<S, H, T, M>>,
) -> bool {
    &&& 0 <= start
    &&& states.len() == outputs.len() + 1
    &&& states[0].has_reached(start)
    &&& forall|i: int|
        0 <= i < outputs.len() ==> makes(start + i, #[trigger] outputs[i]) && states[i + 1]
            == states[i].with(outputs[i])
}

/// What a step has made stays as it is for all the steps that follow.
pub proof fn law_what_was_made_is_kept<S, H, T, M>(
    start: int,
    states: Seq<Progress<S, H, T, M>>,
    outputs: Seq<StepOutput<S, H, T, M>>,
    earlier: int,
    later: int,
)
    requires
        is_progression(start, states, outputs),
        0 <= earlier <= later < states.len(),
    ensures
        states[earlier].has_reached(start + earlier),
        states[later].has_reached(start + later),
        states[earlier].is_kept_from(start + earlier, states[later]),
    decreases later,
{
    if later > 0 {
        law_what_was_made_is_kept(start, states, outputs, 0, later - 1);
        assert(makes(start + (later - 1), outputs[later - 1]));
        if earlier < later {
            law_what_was_made_is_kept(start, states, outputs, earlier, later - 1);
        }
    }
}

/// The progress when `step` is next, in a progression that starts at place `start`.
pub open spec fn at_step<S, H, T, M>(
    start: int,
    states: Seq<Progress<S, H, T, M>>,
    step: ExperimentStep,
) -> Progress<S, H, T, M> {
    states[place(step) - start]
}

/// One set of measurements runs through an experiment: the filter gets the IMU and GPS deliveries
/// among those that are written to the file, and both trackers get the camera and lidar deliveries
/// among them.
pub proof fn law_all_stages_use_what_is_written<S, H, T, M>(
    start: int,
    states: Seq<Progress<S, H, T, M>>,
    outputs: Seq<StepOutput<S, H, T, M>>,
    to_filter: StepInput<S, H, T, M>,
    to_first_tracker: StepInput<S, H, T, M>,
    to_second_tracker: StepInput<S, H, T, M>,
    written: StepInput<S, H, T, M>,
)
    requires
        is_progression(start, states, outputs),
        start <= place(ExperimentStep::EstimateEgo),
        states.len() > place(ExperimentStep::WriteGenerated) - start,
        at_step(start, states, ExperimentStep::EstimateEgo).is_input(
            ExperimentStep::EstimateEgo,
            to_filter,
        ),
        at_step(start, states, ExperimentStep::TrackWithEstimatedEgo).is_input(
            ExperimentStep::TrackWithEstimatedEgo,
            to_first_tracker,
        ),
        at_step(start, states, ExperimentStep::TrackWithTruthEgo).is_input(
            ExperimentStep::TrackWithTruthEgo,
            to_second_tracker,
        ),
        at_step(start, states, ExperimentStep::WriteGenerated).is_input(
            ExperimentStep::WriteGenerated,
            written,
        ),
    ensures
        to_filter->Deliveries_measurements@ == ego_part(written->Generated_0.measurements@),
        is_perception_part(
            written->Generated_0.measurements@,
            to_first_tracker->Tracking_measurements@,
        ),
        is_perception_part(
            written->Generated_0.measurements@,
            to_second_tracker->Tracking_measurements@,
        ),
{
    let end = place(ExperimentStep::WriteGenerated) - start;
    law_what_was_made_is_kept(
        start,
        states,
        outputs,
        place(ExperimentStep::EstimateEgo) - start,
        end,
    );
    law_what_was_made_is_kept(
        start,
        states,
        outputs,
        place(ExperimentStep::TrackWithEstimatedEgo) - start,
        end,
    );
    law_what_was_made_is_kept(
        start,
        states,
        outputs,
        place(ExperimentStep::TrackWithTruthEgo) - start,
        end,
    );
}

/// One run of the filter goes through an experiment: its estimates are what the tracker takes the
/// vehicle to be at, what is evaluated, what is written and what is reported. The metrics that are
/// reported are those that the experiment ends with.
pub proof fn law_one_run_is_evaluated_and_written<S, H, T, M>(
    start: int,
    states: Seq<Progress<S, H, T, M>>,
    outputs: Seq<StepOutput<S, H, T, M>>,
    recorded: StepInput<S, H, T, M>,
    evaluated: StepInput<S, H, T, M>,
    written: StepInput<S, H, T, M>,
    reported: StepInput<S, H, T, M>,
)
    requires
        is_progression(start, states, outputs),
        start <= place(ExperimentStep::RecordEstimatedEgo),
        states.len() > place(ExperimentStep::WriteReports) - start,
        at_step(start, states, ExperimentStep::RecordEstimatedEgo).is_input(
            ExperimentStep::RecordEstimatedEgo,
            recorded,
        ),
        at_step(start, states, ExperimentStep::Evaluate).is_input(
            ExperimentStep::Evaluate,
            evaluated,
        ),
        at_step(start, states, ExperimentStep::WriteEgoEstimates).is_input(
            ExperimentStep::WriteEgoEstimates,
            written,
        ),
        at_step(start, states, ExperimentStep::WriteReports).is_input(
            ExperimentStep::WriteReports,
            reported,
        ),
    ensures
        *recorded->Estimates_0 == *written->Estimates_0,
        *evaluated->Evaluation_estimates == *written->Estimates_0,
        reported->Report_ego_run.estimates == *written->Estimates_0,
        states[states.len() - 1].metrics == Some(*reported->Report_metrics),
{
    let written_at = place(ExperimentStep::WriteEgoEstimates) - start;
    let reported_at = place(ExperimentStep::WriteReports) - start;
    law_what_was_made_is_kept(
        start,
        states,
        outputs,
        place(ExperimentStep::RecordEstimatedEgo) - start,
        written_at,
    );
    law_what_was_made_is_kept(
        start,
        states,
        outputs,
        place(ExperimentStep::Evaluate) - start,
        written_at,
    );
    law_what_was_made_is_kept(start, states, outputs, written_at, reported_at);
    law_what_was_made_is_kept(start, states, outputs, reported_at, states.len() - 1);
}

// Scoring what another program estimated.

/// What a scoring has so far. `E` is what another program estimated, `R` what is read from the
/// run.
#[derive(Debug)]
pub struct ScoreProgress<S, E, R, M> {
    pub scenario: Option<S>,
    pub output: Option<E>,
    pub run: Option<R>,
    pub metrics: Option<M>,
}

/// What a step is given.
#[derive(Debug)]
pub enum ScoreInput<'a, S, E, R, M> {
    Nothing,
    Evaluation { scenario: &'a S, run: &'a R, output: &'a E },
    Output(&'a E),
    Report(&'a M),
}

/// What a step makes.
#[derive(Debug)]
pub enum ScoreProduct<S, E, R, M> {
    Nothing,
    Scenario(S),
    Output(E),
    Run(R),
    Metrics(M),
}

/// Whether the step at place `at` makes such a thing.
pub open spec fn score_makes<S, E, R, M>(at: int, product: ScoreProduct<S, E, R, M>) -> bool {
    match product {
        ScoreProduct::Nothing => {
            ||| at == score_place(ScoreStep::LookUpDestination)
            ||| at > score_place(ScoreStep::Evaluate)
        },
        ScoreProduct::Scenario(_) => at == score_place(ScoreStep::ResolveScenario),
        ScoreProduct::Output(_) => at == score_place(ScoreStep::ReadCsv),
        ScoreProduct::Run(_) => at == score_place(ScoreStep::ReadRun),
        ScoreProduct::Metrics(_) => at == score_place(ScoreStep::Evaluate),
    }
}

impl<S, E, R, M> ScoreProgress<S, E, R, M> {
    /// A scoring that has nothing yet.
    pub fn new() -> (progress: Self)
        ensures
            progress == (ScoreProgress::<S, E, R, M> {
                scenario: None,
                output: None,
                run: None,
                metrics: None,
            }),
    {
        ScoreProgress { scenario: None, output: None, run: None, metrics: None }
    }

    /// Whether everything is there that `step` works on.
    pub open spec fn has_inputs(self, step: ScoreStep) -> bool {
        match step {
            ScoreStep::Evaluate => self.scenario is Some && self.run is Some && self.output
                is Some,
            ScoreStep::WriteOutput => self.output is Some,
            ScoreStep::WriteReport => self.metrics is Some,
            _ => true,
        }
    }

    /// Whether `input` is what `step` works on.
    pub open spec fn is_input(self, step: ScoreStep, input: ScoreInput<S, E, R, M>) -> bool {
        match step {
            ScoreStep::Evaluate => input matches ScoreInput::Evaluation { scenario, run, output }
                && Some(*scenario) == self.scenario && Some(*run) == self.run && Some(*output)
                == self.output,
            ScoreStep::WriteOutput => input matches ScoreInput::Output(output) && Some(*output)
                == self.output,
            ScoreStep::WriteReport => input matches ScoreInput::Report(metrics) && Some(*metrics)
                == self.metrics,
            _ => input is Nothing,
        }
    }

    /// What `step` works on, if all of it is there.
    pub fn input(&self, step: ScoreStep) -> (input: Option<ScoreInput<'_, S, E, R, M>>)
        ensures
            input is Some <==> self.has_inputs(step),
            input matches Some(input) ==> self.is_input(step, input),
    {
        match step {
            ScoreStep::Evaluate => match (&self.scenario, &self.run, &self.output) {
                (Some(scenario), Some(run), Some(output)) => Some(
                    ScoreInput::Evaluation { scenario, run, output },
                ),
                _ => None,
            },
            ScoreStep::WriteOutput => match &self.output {
                Some(output) => Some(ScoreInput::Output(output)),
                None => None,
            },
            ScoreStep::WriteReport => match &self.metrics {
                Some(metrics) => Some(ScoreInput::Report(metrics)),
                None => None,
            },
            _ => Some(ScoreInput::Nothing),
        }
    }

    /// The progress once `product` has been made.
    pub open spec fn with(self, product: ScoreProduct<S, E, R, M>) -> Self {
        match product {
            ScoreProduct::Nothing => self,
            ScoreProduct::Scenario(scenario) => ScoreProgress {
                scenario: Some(scenario),
                ..self
            },
            ScoreProduct::Output(output) => ScoreProgress { output: Some(output), ..self },
            ScoreProduct::Run(run) => ScoreProgress { run: Some(run), ..self },
            ScoreProduct::Metrics(metrics) => ScoreProgress { metrics: Some(metrics), ..self },
        }
    }

    /// Keeps what a step made.
    pub fn keep(&mut self, product: ScoreProduct<S, E, R, M>)
        ensures
            *final(self) == old(self).with(product),
    {
        match product {
            ScoreProduct::Nothing => {},
            ScoreProduct::Scenario(scenario) => {
                self.scenario = Some(scenario);
            },
            ScoreProduct::Output(output) => {
                self.output = Some(output);
            },
            ScoreProduct::Run(run) => {
                self.run = Some(run);
            },
            ScoreProduct::Metrics(metrics) => {
                self.metrics = Some(metrics);
            },
        }
    }
}

} // verus!
