//! The summary of a run in words.
//!
//! Numbers in double precision come in as text; which of them are shown, and what is shown in
//! their place where they are missing, is decided here.
use vstd::prelude::*;

use crate::estimator::diagnostics::GpsDiagnostics;
use crate::estimator::settings::EstimatorAssumptions;
use crate::estimator::timing::{SensorFreshness, TimingDiagnostics};
use crate::text::{count_text, decimal};

verus! {

/// What a tracker did with the detections.
#[derive(Debug, Clone, Copy, PartialEq, Eq, Structural)]
pub struct TrackerDiagnostics {
    pub associated_camera_detections: usize,
    pub associated_lidar_detections: usize,
    pub unmatched_camera_detections: usize,
    pub unmatched_lidar_detections: usize,
    pub created_tracks: usize,
    pub confirmed_tracks: usize,
    pub deleted_tracks: usize,
    pub candidate_pairs: usize,
    pub gated_out_pairs: usize,
    pub selected_associations: usize,
    pub missed_updates: usize,
    pub coasted_updates: usize,
}

/// How often tracks and true objects disagreed.
#[derive(Debug, Clone, Copy, PartialEq, Eq, Structural)]
pub struct TrackMistakes {
    pub missed_object_samples: usize,
    pub false_track_samples: usize,
    pub identity_switch_count: usize,
    pub track_fragment_count: usize,
}

/// The ages of a sensor in seconds, as text. An age that the sensor does not have is not shown.
#[derive(Debug)]
pub struct AgeTexts {
    pub final_receipt_age_s: String,
    pub final_measurement_age_s: String,
    pub maximum_receipt_gap_s: String,
}

/// The metrics of a run, as far as the summary shows them.
#[derive(Debug)]
pub struct MetricTexts {
    pub position_rmse_m: String,
    pub yaw_rmse_rad: String,
    pub truth_ego_track_rmse_m: Option<String>,
    pub estimated_ego_track_rmse_m: Option<String>,
    /// With its sign.
    pub ego_cost_m: Option<String>,
    pub gyro_bias_rmse_radps: Option<String>,
    pub accel_bias_rmse_mps2: Option<String>,
    /// In percent.
    pub gyro_bias_coverage: Option<String>,
    /// In percent.
    pub accel_bias_coverage: Option<String>,
    pub maximum_delivery_age_ms: String,
    pub gps_ages: AgeTexts,
    pub imu_ages: AgeTexts,
    pub tracks_with_estimated_ego: TrackMistakes,
    pub tracks_with_truth_ego: TrackMistakes,
}

/// Counts with slashes in between.
pub open spec fn slashed(counts: Seq<usize>) -> Seq<char>
    decreases counts.len(),
{
    if counts.len() == 0 {
        Seq::empty()
    } else if counts.len() == 1 {
        decimal(counts[0] as nat)
    } else {
        slashed(counts.drop_last()) + "/"@ + decimal(counts.last() as nat)
    }
}

fn slashed_text(counts: &[usize]) -> (text: String)
    ensures
        text@ == slashed(counts@),
{
    let mut text = String::new();
    let mut index: usize = 0;
    assert(counts@.take(0) =~= Seq::empty());
    while index < counts.len()
        invariant
            index <= counts.len(),
            text@ == slashed(counts@.take(index as int)),
        decreases counts.len() - index,
    {
        proof {
            let taken = counts@.take(index as int + 1);
            assert(taken.drop_last() =~= counts@.take(index as int));
            assert(taken.last() == counts@[index as int]);
        }
        if index > 0 {
            text.append("/");
        }
        let digits = count_text(counts[index]);
        text.append(digits.as_str());
        proof {
            if index == 0 {
                assert(text@ =~= decimal(counts@[0] as nat));
            }
        }
        index = index + 1;
    }
    assert(counts@.take(counts@.len() as int) =~= counts@);
    text
}

fn pair_text(a: usize, b: usize) -> (text: String)
    ensures
        text@ == slashed(seq![a, b]),
{
    let counts: [usize; 2] = [a, b];
    assert(counts@ =~= seq![a, b]);
    slashed_text(counts.as_slice())
}

fn triple_text(a: usize, b: usize, c: usize) -> (text: String)
    ensures
        text@ == slashed(seq![a, b, c]),
{
    let counts: [usize; 3] = [a, b, c];
    assert(counts@ =~= seq![a, b, c]);
    slashed_text(counts.as_slice())
}

/// The error of tracks, or that no track was matched.
pub open spec fn track_rmse_shown(value: Option<Seq<char>>) -> Seq<char> {
    match value {
        Some(value) => value + " m"@,
        None => "— (no matched tracks)"@,
    }
}

/// The text in an option.
pub open spec fn text_view(text: Option<String>) -> Option<Seq<char>> {
    match text {
        Some(text) => Some(text@),
        None => None,
    }
}

pub fn display_track_rmse(value: &Option<String>) -> (text: String)
    ensures
        text@ == track_rmse_shown(text_view(*value)),
{
    match value {
        Some(value) => {
            let mut text = String::new();
            text.append(value.as_str());
            text.append(" m");
            assert(text@ =~= value@ + " m"@);
            text
        },
        None => "— (no matched tracks)".to_owned(),
    }
}

/// What the estimated ego costs the tracks, or a dash.
pub open spec fn ego_cost_shown(value: Option<Seq<char>>) -> Seq<char> {
    match value {
        Some(value) => value + " m"@,
        None => "—"@,
    }
}

fn display_ego_cost(value: &Option<String>) -> (text: String)
    ensures
        text@ == ego_cost_shown(text_view(*value)),
{
    match value {
        Some(value) => {
            let mut text = String::new();
            text.append(value.as_str());
            text.append(" m");
            assert(text@ =~= value@ + " m"@);
            text
        },
        None => "—".to_owned(),
    }
}

/// The version of a backend in brackets, or nothing.
pub open spec fn version_shown(version: Option<Seq<char>>) -> Seq<char> {
    match version {
        Some(version) => " ("@ + version + ")"@,
        None => Seq::empty(),
    }
}

fn display_version(version: &Option<String>) -> (text: String)
    ensures
        text@ == version_shown(text_view(*version)),
{
    match version {
        Some(version) => {
            let mut text = " (".to_owned();
            text.append(version.as_str());
            text.append(")");
            text
        },
        None => String::new(),
    }
}

/// An age in seconds, or that there is none.
pub open spec fn age_shown(age: Option<i64>, rendered: Seq<char>) -> Seq<char> {
    match age {
        Some(_) => rendered + " s"@,
        None => "unavailable"@,
    }
}

fn display_age(age: Option<i64>, rendered: &String) -> (text: String)
    ensures
        text@ == age_shown(age, rendered@),
{
    match age {
        Some(_) => {
            let mut text = String::new();
            text.append(rendered.as_str());
            text.append(" s");
            assert(text@ =~= rendered@ + " s"@);
            text
        },
        None => "unavailable".to_owned(),
    }
}

// The parts of the summary.

/// The vehicle: the filter, its errors, and what became of the GPS fixes.
pub open spec fn vehicle_section(
    assumptions: EstimatorAssumptions,
    metrics: MetricTexts,
    fixes: GpsDiagnostics,
) -> Seq<char> {
    "# Run result\n\nGPS and IMU estimate the vehicle. Camera and lidar track objects.\n\n## Vehicle\n\nEstimator: "@
        + assumptions.algorithm.spec_name() + version_shown(text_view(assumptions.backend_version))
        + "  \nPosition RMSE: "@ + metrics.position_rmse_m@ + " m  \nHeading RMSE: "@
        + metrics.yaw_rmse_rad@ + " rad  \nGPS fixes accepted/rejected/invalid: "@ + slashed(
        seq![fixes.accepted_fixes, fixes.rejected_fixes, fixes.invalid_fixes],
    ) + "\n\n"@
}

fn write_vehicle_section(
    assumptions: &EstimatorAssumptions,
    metrics: &MetricTexts,
    fixes: &GpsDiagnostics,
) -> (text: String)
    ensures
        text@ == vehicle_section(*assumptions, *metrics, *fixes),
{
    let mut text =
        "# Run result\n\nGPS and IMU estimate the vehicle. Camera and lidar track objects.\n\n## Vehicle\n\nEstimator: ".to_owned();
    text.append(assumptions.algorithm.name());
    text.append(display_version(&assumptions.backend_version).as_str());
    text.append("  \nPosition RMSE: ");
    text.append(metrics.position_rmse_m.as_str());
    text.append(" m  \nHeading RMSE: ");
    text.append(metrics.yaw_rmse_rad.as_str());
    text.append(" rad  \nGPS fixes accepted/rejected/invalid: ");
    text.append(
        triple_text(fixes.accepted_fixes, fixes.rejected_fixes, fixes.invalid_fixes).as_str(),
    );
    text.append("\n\n");
    text
}

/// The objects: the errors of the tracks, and how detections became tracks.
pub open spec fn object_section(metrics: MetricTexts, tracker: TrackerDiagnostics) -> Seq<char> {
    "## Objects\n\nTruth ego position RMSE: "@ + track_rmse_shown(
        text_view(metrics.truth_ego_track_rmse_m),
    ) + "  \nEstimated ego position RMSE: "@ + track_rmse_shown(
        text_view(metrics.estimated_ego_track_rmse_m),
    ) + "  \nCost of estimated ego: "@ + ego_cost_shown(text_view(metrics.ego_cost_m))
        + "\n\nEstimated-ego associations, camera/lidar: "@ + slashed(
        seq![tracker.associated_camera_detections, tracker.associated_lidar_detections],
    ) + "  \nUnmatched camera/lidar detections: "@ + slashed(
        seq![tracker.unmatched_camera_detections, tracker.unmatched_lidar_detections],
    ) + "  \nTracks created/confirmed/deleted: "@ + slashed(
        seq![tracker.created_tracks, tracker.confirmed_tracks, tracker.deleted_tracks],
    ) + "\n"@
}

fn write_object_section(metrics: &MetricTexts, tracker: &TrackerDiagnostics) -> (text: String)
    ensures
        text@ == object_section(*metrics, *tracker),
{
    let mut text = "## Objects\n\nTruth ego position RMSE: ".to_owned();
    text.append(display_track_rmse(&metrics.truth_ego_track_rmse_m).as_str());
    text.append("  \nEstimated ego position RMSE: ");
    text.append(display_track_rmse(&metrics.estimated_ego_track_rmse_m).as_str());
    text.append("  \nCost of estimated ego: ");
    text.append(display_ego_cost(&metrics.ego_cost_m).as_str());
    text.append("\n\nEstimated-ego associations, camera/lidar: ");
    text.append(
        pair_text(
            tracker.associated_camera_detections,
            tracker.associated_lidar_detections,
        ).as_str(),
    );
    text.append("  \nUnmatched camera/lidar detections: ");
    text.append(
        pair_text(tracker.unmatched_camera_detections, tracker.unmatched_lidar_detections).as_str(),
    );
    text.append("  \nTracks created/confirmed/deleted: ");
    text.append(
        triple_text(
            tracker.created_tracks,
            tracker.confirmed_tracks,
            tracker.deleted_tracks,
        ).as_str(),
    );
    text.append("\n");
    text
}

/// How often tracks and true objects disagreed.
pub open spec fn mistakes_shown(mistakes: TrackMistakes) -> Seq<char> {
    slashed(
        seq![
            mistakes.missed_object_samples,
            mistakes.false_track_samples,
            mistakes.identity_switch_count,
            mistakes.track_fragment_count,
        ],
    )
}

fn display_mistakes(mistakes: &TrackMistakes) -> (text: String)
    ensures
        text@ == mistakes_shown(*mistakes),
{
    let counts: [usize; 4] = [
        mistakes.missed_object_samples,
        mistakes.false_track_samples,
        mistakes.identity_switch_count,
        mistakes.track_fragment_count,
    ];
    assert(counts@ =~= seq![
        mistakes.missed_object_samples,
        mistakes.false_track_samples,
        mistakes.identity_switch_count,
        mistakes.track_fragment_count,
    ]);
    slashed_text(counts.as_slice())
}

/// How detections were paired with tracks, and how tracks and true objects disagreed.
pub open spec fn tracking_section(metrics: MetricTexts, tracker: TrackerDiagnostics) -> Seq<char> {
    "Candidate pairs/gated out/selected: "@ + slashed(
        seq![tracker.candidate_pairs, tracker.gated_out_pairs, tracker.selected_associations],
    ) + "  \nMissed/coasted tracker updates: "@ + slashed(
        seq![tracker.missed_updates, tracker.coasted_updates],
    ) + "  \nEstimated ego missed/false/switches/fragments: "@ + mistakes_shown(
        metrics.tracks_with_estimated_ego,
    ) + "  \nTruth ego missed/false/switches/fragments: "@ + mistakes_shown(
        metrics.tracks_with_truth_ego,
    ) + "\n"@
}

fn write_tracking_section(metrics: &MetricTexts, tracker: &TrackerDiagnostics) -> (text: String)
    ensures
        text@ == tracking_section(*metrics, *tracker),
{
    let mut text = "Candidate pairs/gated out/selected: ".to_owned();
    text.append(
        triple_text(
            tracker.candidate_pairs,
            tracker.gated_out_pairs,
            tracker.selected_associations,
        ).as_str(),
    );
    text.append("  \nMissed/coasted tracker updates: ");
    text.append(pair_text(tracker.missed_updates, tracker.coasted_updates).as_str());
    text.append("  \nEstimated ego missed/false/switches/fragments: ");
    text.append(display_mistakes(&metrics.tracks_with_estimated_ego).as_str());
    text.append("  \nTruth ego missed/false/switches/fragments: ");
    text.append(display_mistakes(&metrics.tracks_with_truth_ego).as_str());
    text.append("\n");
    text
}

/// The biases of the IMU, if all that belongs to them is known.
pub open spec fn bias_section(metrics: MetricTexts) -> Seq<char> {
    match (
        metrics.gyro_bias_rmse_radps,
        metrics.accel_bias_rmse_mps2,
        metrics.gyro_bias_coverage,
        metrics.accel_bias_coverage,
    ) {
        (Some(gyro_rmse), Some(accel_rmse), Some(gyro_coverage), Some(accel_coverage)) =>
            "\n## IMU bias\n\nGyroscope bias RMSE: "@ + gyro_rmse@
            + " rad/s  \nTrue gyroscope bias inside the 95% range: "@ + gyro_coverage@
            + "%  \nAccelerometer bias RMSE: "@ + accel_rmse@
            + " m/s²  \nTrue accelerometer bias inside the 95% range: "@ + accel_coverage@
            + "%\n"@,
        _ => Seq::empty(),
    }
}

fn write_bias_section(metrics: &MetricTexts) -> (text: String)
    ensures
        text@ == bias_section(*metrics),
{
    match (
        &metrics.gyro_bias_rmse_radps,
        &metrics.accel_bias_rmse_mps2,
        &metrics.gyro_bias_coverage,
        &metrics.accel_bias_coverage,
    ) {
        (Some(gyro_rmse), Some(accel_rmse), Some(gyro_coverage), Some(accel_coverage)) => {
            let mut text = "\n## IMU bias\n\nGyroscope bias RMSE: ".to_owned();
            text.append(gyro_rmse.as_str());
            text.append(" rad/s  \nTrue gyroscope bias inside the 95% range: ");
            text.append(gyro_coverage.as_str());
            text.append("%  \nAccelerometer bias RMSE: ");
            text.append(accel_rmse.as_str());
            text.append(" m/s²  \nTrue accelerometer bias inside the 95% range: ");
            text.append(accel_coverage.as_str());
            text.append("%\n");
            text
        },
        _ => String::new(),
    }
}

/// How the run treated late deliveries, if it compensated for them or there was one.
pub open spec fn timing_section(timing: TimingDiagnostics, metrics: MetricTexts) -> Seq<char> {
    if timing.timing_compensation || timing.maximum_delivery_age_ns > 0 {
        "\n## Vehicle timing\n\nProcessing: "@ + (if timing.timing_compensation {
            "offline measurement-time order"@
        } else {
            "arrival order"@
        }) + "  \nDelayed measurements: "@ + decimal(timing.delayed_measurements as nat)
            + "  \nDelayed measurements reordered: "@ + decimal(
            timing.replayed_measurements as nat,
        ) + "  \nRevised estimates: "@ + decimal(timing.revised_estimates as nat)
            + "  \nDiscarded measurements: "@ + decimal(timing.discarded_measurements as nat)
            + "  \nMaximum arrival delay: "@ + metrics.maximum_delivery_age_ms@ + " ms\n"@
    } else {
        Seq::empty()
    }
}

fn write_timing_section(timing: &TimingDiagnostics, metrics: &MetricTexts) -> (text: String)
    ensures
        text@ == timing_section(*timing, *metrics),
{
    if timing.timing_compensation || timing.maximum_delivery_age_ns > 0 {
        let mut text = "\n## Vehicle timing\n\nProcessing: ".to_owned();
        if timing.timing_compensation {
            text.append("offline measurement-time order");
        } else {
            text.append("arrival order");
        }
        text.append("  \nDelayed measurements: ");
        text.append(count_text(timing.delayed_measurements).as_str());
        text.append("  \nDelayed measurements reordered: ");
        text.append(count_text(timing.replayed_measurements).as_str());
        text.append("  \nRevised estimates: ");
        text.append(count_text(timing.revised_estimates).as_str());
        text.append("  \nDiscarded measurements: ");
        text.append(count_text(timing.discarded_measurements).as_str());
        text.append("  \nMaximum arrival delay: ");
        text.append(metrics.maximum_delivery_age_ms.as_str());
        text.append(" ms\n");
        text
    } else {
        String::new()
    }
}

/// One row of the table of sensors.
pub open spec fn freshness_row(
    name: Seq<char>,
    freshness: SensorFreshness,
    ages: AgeTexts,
) -> Seq<char> {
    name + " | "@ + age_shown(freshness.final_receipt_age_ns, ages.final_receipt_age_s@) + " | "@
        + age_shown(freshness.final_measurement_age_ns, ages.final_measurement_age_s@) + " | "@
        + age_shown(freshness.maximum_receipt_gap_ns, ages.maximum_receipt_gap_s@) + "\n"@
}

fn write_freshness_row(name: &str, freshness: &SensorFreshness, ages: &AgeTexts) -> (text: String)
    ensures
        text@ == freshness_row(name@, *freshness, *ages),
{
    let mut text = name.to_owned();
    text.append(" | ");
    text.append(display_age(freshness.final_receipt_age_ns, &ages.final_receipt_age_s).as_str());
    text.append(" | ");
    text.append(
        display_age(freshness.final_measurement_age_ns, &ages.final_measurement_age_s).as_str(),
    );
    text.append(" | ");
    text.append(
        display_age(freshness.maximum_receipt_gap_ns, &ages.maximum_receipt_gap_s).as_str(),
    );
    text.append("\n");
    text
}

/// How fresh the sensors were.
pub open spec fn freshness_section(timing: TimingDiagnostics, metrics: MetricTexts) -> Seq<char> {
    "\n## Sensor freshness\n\nAges at the last GPS/IMU arrival; received packets, regardless of filter acceptance.\n\nSensor | Receipt age | Measurement age | Maximum receipt gap\n--- | --- | --- | ---\n"@
        + freshness_row("GPS"@, timing.gps_freshness, metrics.gps_ages) + freshness_row(
        "IMU"@,
        timing.imu_freshness,
        metrics.imu_ages,
    )
        + "\nMaximum receipt gap includes trailing silence after the first packet. Unavailable means no packet was received.\n"@
}

fn write_freshness_section(timing: &TimingDiagnostics, metrics: &MetricTexts) -> (text: String)
    ensures
        text@ == freshness_section(*timing, *metrics),
{
    let mut text =
        "\n## Sensor freshness\n\nAges at the last GPS/IMU arrival; received packets, regardless of filter acceptance.\n\nSensor | Receipt age | Measurement age | Maximum receipt gap\n--- | --- | --- | ---\n".to_owned();
    text.append(write_freshness_row("GPS", &timing.gps_freshness, &metrics.gps_ages).as_str());
    text.append(write_freshness_row("IMU", &timing.imu_freshness, &metrics.imu_ages).as_str());
    text.append(
        "\nMaximum receipt gap includes trailing silence after the first packet. Unavailable means no packet was received.\n",
    );
    text
}

/// The summary of a run.
pub open spec fn summary(
    metrics: MetricTexts,
    timing: TimingDiagnostics,
    fixes: GpsDiagnostics,
    tracker: TrackerDiagnostics,
    assumptions: EstimatorAssumptions,
) -> Seq<char> {
    vehicle_section(assumptions, metrics, fixes) + object_section(metrics, tracker)
        + tracking_section(metrics, tracker) + bias_section(metrics) + timing_section(
        timing,
        metrics,
    ) + freshness_section(timing, metrics)
}

/// Writes the summary of a run. `tracker` is what the tracker did on the estimated ego.
pub fn write_reports(
    metrics: &MetricTexts,
    timing: &TimingDiagnostics,
    fixes: &GpsDiagnostics,
    tracker: &TrackerDiagnostics,
    assumptions: &EstimatorAssumptions,
) -> (text: String)
    ensures
        text@ == summary(*metrics, *timing, *fixes, *tracker, *assumptions),
{
    let mut text = write_vehicle_section(assumptions, metrics, fixes);
    text.append(write_object_section(metrics, tracker).as_str());
    text.append(write_tracking_section(metrics, tracker).as_str());
    text.append(write_bias_section(metrics).as_str());
    text.append(write_timing_section(timing, metrics).as_str());
    text.append(write_freshness_section(timing, metrics).as_str());
    text
}

/// A run whose deliveries were all on time, and that did not compensate for delays, says nothing
/// of delays; any other does.
pub proof fn law_delays_are_reported_when_there_can_be_any(
    timing: TimingDiagnostics,
    metrics: MetricTexts,
)
    ensures
        timing_section(timing, metrics).len() == 0 <==> !timing.timing_compensation
            && timing.maximum_delivery_age_ns <= 0,
{
    reveal_strlit(" ms\n");
}

} // verus!
