//! What the summary of a run shows, line by line.
use vstd::prelude::*;

use crate::estimator::diagnostics::GpsDiagnostics;
use crate::estimator::settings::EstimatorAssumptions;
use crate::estimator::timing::{SensorFreshness, TimingDiagnostics};
use crate::report::{
    bias_section, freshness_row, freshness_section, object_section, slashed,
    summary, text_view, timing_section, tracking_section, track_rmse_shown, vehicle_section,
    AgeTexts, MetricTexts, TrackMistakes, TrackerDiagnostics,
};
use crate::scenario::EgoEstimatorAlgorithm;
use crate::text::decimal;

verus! {

// Pieces of text.

/// Whether `line` stands somewhere in `text`.
pub open spec fn shows(text: Seq<char>, line: Seq<char>) -> bool {
    exists|at: int|
        0 <= at && at + line.len() <= text.len() && #[trigger] text.subrange(at, at + line.len())
            == line
}

/// Whether `text` ends with `tail`.
pub open spec fn ends_with(text: Seq<char>, tail: Seq<char>) -> bool {
    tail.len() <= text.len() && text.subrange(text.len() - tail.len(), text.len() as int) == tail
}

/// The first `count` pieces, one after the other.
pub open spec fn joined(pieces: Seq<Seq<char>>, count: int) -> Seq<char>
    decreases count,
{
    if count <= 0 {
        Seq::empty()
    } else {
        joined(pieces, count - 1) + pieces[count - 1]
    }
}

/// All pieces, one after the other.
pub open spec fn all_joined(pieces: Seq<Seq<char>>) -> Seq<char> {
    joined(pieces, pieces.len() as int)
}

proof fn lemma_joined_prefix(a: Seq<Seq<char>>, b: Seq<Seq<char>>, count: int)
    requires
        0 <= count <= a.len(),
    ensures
        joined(a + b, count) == joined(a, count),
    decreases count,
{
    if count > 0 {
        lemma_joined_prefix(a, b, count - 1);
    }
}

proof fn lemma_joined_split(a: Seq<Seq<char>>, b: Seq<Seq<char>>, count: int)
    requires
        0 <= count <= b.len(),
    ensures
        joined(a + b, a.len() + count) == joined(a, a.len() as int) + joined(b, count),
    decreases count,
{
    if count > 0 {
        lemma_joined_split(a, b, count - 1);
        assert((a + b)[a.len() + count - 1] == b[count - 1]);
        assert(joined(a + b, a.len() + count) =~= joined(a, a.len() as int) + joined(b, count));
    } else {
        lemma_joined_prefix(a, b, a.len() as int);
        assert(joined(a, a.len() as int) + joined(b, 0) =~= joined(a, a.len() as int));
    }
}

proof fn lemma_all_joined(a: Seq<Seq<char>>, b: Seq<Seq<char>>)
    ensures
        all_joined(a + b) == all_joined(a) + all_joined(b),
{
    lemma_joined_split(a, b, b.len() as int);
}

proof fn lemma_shows_left(a: Seq<char>, b: Seq<char>, line: Seq<char>)
    requires
        shows(a, line),
    ensures
        shows(a + b, line),
{
    let at = choose|at: int|
        0 <= at && at + line.len() <= a.len() && #[trigger] a.subrange(at, at + line.len()) == line;
    assert((a + b).subrange(at, at + line.len()) =~= line);
}

proof fn lemma_shows_right(a: Seq<char>, b: Seq<char>, line: Seq<char>)
    requires
        shows(b, line),
    ensures
        shows(a + b, line),
{
    let at = choose|at: int|
        0 <= at && at + line.len() <= b.len() && #[trigger] b.subrange(at, at + line.len()) == line;
    assert((a + b).subrange(a.len() + at, a.len() + at + line.len()) =~= line);
}

proof fn lemma_shows_itself(line: Seq<char>)
    ensures
        shows(line, line),
{
    let start: int = 0;
    assert(line.subrange(start, start + line.len()) =~= line);
}

// What is shown for a value.

/// Two counts with a slash in between.
pub open spec fn two(a: usize, b: usize) -> Seq<char> {
    decimal(a as nat) + "/"@ + decimal(b as nat)
}

/// Three counts with slashes in between.
pub open spec fn three(a: usize, b: usize, c: usize) -> Seq<char> {
    decimal(a as nat) + "/"@ + decimal(b as nat) + "/"@ + decimal(c as nat)
}

/// Four counts with slashes in between.
pub open spec fn four(a: usize, b: usize, c: usize, d: usize) -> Seq<char> {
    decimal(a as nat) + "/"@ + decimal(b as nat) + "/"@ + decimal(c as nat) + "/"@ + decimal(
        d as nat,
    )
}

proof fn lemma_counts(a: usize, b: usize, c: usize, d: usize)
    ensures
        slashed(seq![a, b]) == two(a, b),
        slashed(seq![a, b, c]) == three(a, b, c),
        slashed(seq![a, b, c, d]) == four(a, b, c, d),
{
    reveal_with_fuel(slashed, 5);
    assert(seq![a, b].drop_last() =~= seq![a]);
    assert(seq![a, b, c].drop_last() =~= seq![a, b]);
    assert(seq![a, b, c, d].drop_last() =~= seq![a, b, c]);
}

/// The name of a filter.
pub open spec fn filter_name(algorithm: EgoEstimatorAlgorithm) -> Seq<char> {
    match algorithm {
        EgoEstimatorAlgorithm::Basic => "basic"@,
        EgoEstimatorAlgorithm::ImuBias => "imu_bias"@,
        EgoEstimatorAlgorithm::GtsamEkfPlanar => "gtsam_ekf_planar"@,
    }
}

pub open spec fn in_brackets(version: Option<String>) -> Seq<char> {
    match version {
        Some(version) => " ("@ + version@ + ")"@,
        None => Seq::empty(),
    }
}

/// A distance in metres, or what is said where there is none.
pub open spec fn metres_or(value: Option<String>, otherwise: Seq<char>) -> Seq<char> {
    match value {
        Some(value) => value@ + " m"@,
        None => otherwise,
    }
}

/// An age in seconds where the sensor has one.
pub open spec fn seconds_or_unavailable(age: Option<i64>, text: String) -> Seq<char> {
    if age is Some {
        text@ + " s"@
    } else {
        "unavailable"@
    }
}

/// The row of a sensor.
pub open spec fn row_of(
    name: Seq<char>,
    freshness: SensorFreshness,
    ages: AgeTexts,
) -> Seq<char> {
    name + " | "@ + seconds_or_unavailable(
        freshness.final_receipt_age_ns,
        ages.final_receipt_age_s,
    ) + " | "@ + seconds_or_unavailable(
        freshness.final_measurement_age_ns,
        ages.final_measurement_age_s,
    ) + " | "@ + seconds_or_unavailable(
        freshness.maximum_receipt_gap_ns,
        ages.maximum_receipt_gap_s,
    ) + "\n"@
}

/// What stands below the table of sensors.
pub open spec fn last_words() -> Seq<char> {
    "\nMaximum receipt gap includes trailing silence after the first packet. Unavailable means no packet was received.\n"@
}

// The pieces of the summary.

pub open spec fn vehicle_pieces(
    assumptions: EstimatorAssumptions,
    metrics: MetricTexts,
    fixes: GpsDiagnostics,
) -> Seq<Seq<char>> {
    seq![
        "# Run result\n\nGPS and IMU estimate the vehicle. Camera and lidar track objects.\n\n## Vehicle\n\nEstimator: "@,
        filter_name(assumptions.algorithm),
        in_brackets(assumptions.backend_version),
        "  \nPosition RMSE: "@,
        metrics.position_rmse_m@,
        " m  \nHeading RMSE: "@,
        metrics.yaw_rmse_rad@,
        " rad  \nGPS fixes accepted/rejected/invalid: "@,
        three(fixes.accepted_fixes, fixes.rejected_fixes, fixes.invalid_fixes),
        "\n\n"@,
    ]
}

pub open spec fn object_pieces(metrics: MetricTexts, tracker: TrackerDiagnostics) -> Seq<
    Seq<char>,
> {
    seq![
        "## Objects\n\nTruth ego position RMSE: "@,
        metres_or(metrics.truth_ego_track_rmse_m, "— (no matched tracks)"@),
        "  \nEstimated ego position RMSE: "@,
        metres_or(metrics.estimated_ego_track_rmse_m, "— (no matched tracks)"@),
        "  \nCost of estimated ego: "@,
        metres_or(metrics.ego_cost_m, "—"@),
        "\n\nEstimated-ego associations, camera/lidar: "@,
        two(tracker.associated_camera_detections, tracker.associated_lidar_detections),
        "  \nUnmatched camera/lidar detections: "@,
        two(tracker.unmatched_camera_detections, tracker.unmatched_lidar_detections),
        "  \nTracks created/confirmed/deleted: "@,
        three(tracker.created_tracks, tracker.confirmed_tracks, tracker.deleted_tracks),
        "\n"@,
    ]
}

pub open spec fn mistakes_of(mistakes: TrackMistakes) -> Seq<char> {
    four(
        mistakes.missed_object_samples,
        mistakes.false_track_samples,
        mistakes.identity_switch_count,
        mistakes.track_fragment_count,
    )
}

pub open spec fn tracking_pieces(metrics: MetricTexts, tracker: TrackerDiagnostics) -> Seq<
    Seq<char>,
> {
    seq![
        "Candidate pairs/gated out/selected: "@,
        three(tracker.candidate_pairs, tracker.gated_out_pairs, tracker.selected_associations),
        "  \nMissed/coasted tracker updates: "@,
        two(tracker.missed_updates, tracker.coasted_updates),
        "  \nEstimated ego missed/false/switches/fragments: "@,
        mistakes_of(metrics.tracks_with_estimated_ego),
        "  \nTruth ego missed/false/switches/fragments: "@,
        mistakes_of(metrics.tracks_with_truth_ego),
        "\n"@,
    ]
}

/// Whether everything about the biases is known.
pub open spec fn knows_biases(metrics: MetricTexts) -> bool {
    &&& metrics.gyro_bias_rmse_radps is Some
    &&& metrics.accel_bias_rmse_mps2 is Some
    &&& metrics.gyro_bias_coverage is Some
    &&& metrics.accel_bias_coverage is Some
}

pub open spec fn bias_pieces(metrics: MetricTexts) -> Seq<Seq<char>> {
    if knows_biases(metrics) {
        seq![
            "\n## IMU bias\n\nGyroscope bias RMSE: "@,
            metrics.gyro_bias_rmse_radps->0@,
            " rad/s  \nTrue gyroscope bias inside the 95% range: "@,
            metrics.gyro_bias_coverage->0@,
            "%  \nAccelerometer bias RMSE: "@,
            metrics.accel_bias_rmse_mps2->0@,
            " m/s²  \nTrue accelerometer bias inside the 95% range: "@,
            metrics.accel_bias_coverage->0@,
            "%\n"@,
        ]
    } else {
        Seq::empty()
    }
}

pub open spec fn timing_pieces(timing: TimingDiagnostics, metrics: MetricTexts) -> Seq<
    Seq<char>,
> {
    if timing.timing_compensation || timing.maximum_delivery_age_ns > 0 {
        seq![
            "\n## Vehicle timing\n\nProcessing: "@,
            if timing.timing_compensation {
                "offline measurement-time order"@
            } else {
                "arrival order"@
            },
            "  \nDelayed measurements: "@,
            decimal(timing.delayed_measurements as nat),
            "  \nDelayed measurements reordered: "@,
            decimal(timing.replayed_measurements as nat),
            "  \nRevised estimates: "@,
            decimal(timing.revised_estimates as nat),
            "  \nDiscarded measurements: "@,
            decimal(timing.discarded_measurements as nat),
            "  \nMaximum arrival delay: "@,
            metrics.maximum_delivery_age_ms@,
            " ms\n"@,
        ]
    } else {
        Seq::empty()
    }
}

pub open spec fn freshness_pieces(timing: TimingDiagnostics, metrics: MetricTexts) -> Seq<
    Seq<char>,
> {
    seq![
        "\n## Sensor freshness\n\nAges at the last GPS/IMU arrival; received packets, regardless of filter acceptance.\n\nSensor | Receipt age | Measurement age | Maximum receipt gap\n--- | --- | --- | ---\n"@,
        row_of("GPS"@, timing.gps_freshness, metrics.gps_ages),
        row_of("IMU"@, timing.imu_freshness, metrics.imu_ages),
        last_words(),
    ]
}

proof fn lemma_vehicle(
    assumptions: EstimatorAssumptions,
    metrics: MetricTexts,
    fixes: GpsDiagnostics,
)
    ensures
        vehicle_section(assumptions, metrics, fixes) == all_joined(
            vehicle_pieces(assumptions, metrics, fixes),
        ),
{
    reveal_with_fuel(joined, 11);
    lemma_counts(fixes.accepted_fixes, fixes.rejected_fixes, fixes.invalid_fixes, 0);
    let pieces = vehicle_pieces(assumptions, metrics, fixes);
    assert(joined(pieces, 1) =~= pieces[0]);
}

proof fn lemma_object(metrics: MetricTexts, tracker: TrackerDiagnostics)
    ensures
        object_section(metrics, tracker) == all_joined(object_pieces(metrics, tracker)),
{
    reveal_with_fuel(joined, 14);
    lemma_counts(
        tracker.associated_camera_detections,
        tracker.associated_lidar_detections,
        0,
        0,
    );
    lemma_counts(tracker.unmatched_camera_detections, tracker.unmatched_lidar_detections, 0, 0);
    lemma_counts(tracker.created_tracks, tracker.confirmed_tracks, tracker.deleted_tracks, 0);
    let pieces = object_pieces(metrics, tracker);
    assert(joined(pieces, 1) =~= pieces[0]);
}

proof fn lemma_tracking(metrics: MetricTexts, tracker: TrackerDiagnostics)
    ensures
        tracking_section(metrics, tracker) == all_joined(tracking_pieces(metrics, tracker)),
{
    reveal_with_fuel(joined, 10);
    let (a, b) = (metrics.tracks_with_estimated_ego, metrics.tracks_with_truth_ego);
    lemma_counts(
        tracker.candidate_pairs,
        tracker.gated_out_pairs,
        tracker.selected_associations,
        0,
    );
    lemma_counts(tracker.missed_updates, tracker.coasted_updates, 0, 0);
    lemma_counts(
        a.missed_object_samples,
        a.false_track_samples,
        a.identity_switch_count,
        a.track_fragment_count,
    );
    lemma_counts(
        b.missed_object_samples,
        b.false_track_samples,
        b.identity_switch_count,
        b.track_fragment_count,
    );
    let pieces = tracking_pieces(metrics, tracker);
    assert(joined(pieces, 1) =~= pieces[0]);
}

proof fn lemma_bias(metrics: MetricTexts)
    ensures
        bias_section(metrics) == all_joined(bias_pieces(metrics)),
{
    reveal_with_fuel(joined, 10);
    let pieces = bias_pieces(metrics);
    if knows_biases(metrics) {
        assert(joined(pieces, 1) =~= pieces[0]);
    }
}

proof fn lemma_timing(timing: TimingDiagnostics, metrics: MetricTexts)
    ensures
        timing_section(timing, metrics) == all_joined(timing_pieces(timing, metrics)),
{
    reveal_with_fuel(joined, 14);
    let pieces = timing_pieces(timing, metrics);
    if pieces.len() > 0 {
        assert(joined(pieces, 1) =~= pieces[0]);
    }
}

proof fn lemma_freshness(timing: TimingDiagnostics, metrics: MetricTexts)
    ensures
        freshness_section(timing, metrics) == all_joined(freshness_pieces(timing, metrics)),
{
    reveal_with_fuel(joined, 5);
    let pieces = freshness_pieces(timing, metrics);
    assert(joined(pieces, 1) =~= pieces[0]);
}

/// The summary is made of these pieces and nothing else: each number stands behind its own words,
/// the biases are shown if all of them are known, and the treatment of delays if there was any.
pub proof fn law_summary_is_its_pieces(
    metrics: MetricTexts,
    timing: TimingDiagnostics,
    fixes: GpsDiagnostics,
    tracker: TrackerDiagnostics,
    assumptions: EstimatorAssumptions,
)
    ensures
        summary(metrics, timing, fixes, tracker, assumptions) == all_joined(
            vehicle_pieces(assumptions, metrics, fixes) + object_pieces(metrics, tracker)
                + tracking_pieces(metrics, tracker) + bias_pieces(metrics) + timing_pieces(
                timing,
                metrics,
            ) + freshness_pieces(timing, metrics),
        ),
{
    let a = vehicle_pieces(assumptions, metrics, fixes);
    let b = object_pieces(metrics, tracker);
    let c = tracking_pieces(metrics, tracker);
    let d = bias_pieces(metrics);
    let e = timing_pieces(timing, metrics);
    let f = freshness_pieces(timing, metrics);
    lemma_vehicle(assumptions, metrics, fixes);
    lemma_object(metrics, tracker);
    lemma_tracking(metrics, tracker);
    lemma_bias(metrics);
    lemma_timing(timing, metrics);
    lemma_freshness(timing, metrics);
    lemma_all_joined(a, b);
    lemma_all_joined(a + b, c);
    lemma_all_joined(a + b + c, d);
    lemma_all_joined(a + b + c + d, e);
    lemma_all_joined(a + b + c + d + e, f);
}

/// Each sensor's row shows the ages of that sensor: the row of the GPS stands in the summary, and
/// the summary ends with the row of the IMU and the words below the table.
pub proof fn law_each_row_shows_its_own_sensor(
    metrics: MetricTexts,
    timing: TimingDiagnostics,
    fixes: GpsDiagnostics,
    tracker: TrackerDiagnostics,
    assumptions: EstimatorAssumptions,
)
    ensures
        shows(
            summary(metrics, timing, fixes, tracker, assumptions),
            row_of("GPS"@, timing.gps_freshness, metrics.gps_ages),
        ),
        shows(
            summary(metrics, timing, fixes, tracker, assumptions),
            row_of("IMU"@, timing.imu_freshness, metrics.imu_ages),
        ),
        ends_with(
            summary(metrics, timing, fixes, tracker, assumptions),
            row_of("IMU"@, timing.imu_freshness, metrics.imu_ages) + last_words(),
        ),
{
    let text = summary(metrics, timing, fixes, tracker, assumptions);
    let section = freshness_section(timing, metrics);
    let gps = row_of("GPS"@, timing.gps_freshness, metrics.gps_ages);
    let imu = row_of("IMU"@, timing.imu_freshness, metrics.imu_ages);
    lemma_freshness(timing, metrics);
    reveal_with_fuel(joined, 5);
    let pieces = freshness_pieces(timing, metrics);
    let head = joined(pieces, 1);
    assert(section == head + gps + imu + last_words());
    lemma_shows_itself(gps);
    lemma_shows_itself(imu);
    lemma_shows_right(head, gps, gps);
    lemma_shows_left(head + gps, imu, gps);
    lemma_shows_left(head + gps + imu, last_words(), gps);
    lemma_shows_right(head + gps, imu, imu);
    lemma_shows_left(head + gps + imu, last_words(), imu);
    let before = vehicle_section(assumptions, metrics, fixes) + object_section(metrics, tracker)
        + tracking_section(metrics, tracker) + bias_section(metrics) + timing_section(
        timing,
        metrics,
    );
    assert(text == before + section);
    lemma_shows_right(before, section, gps);
    lemma_shows_right(before, section, imu);
    let tail = imu + last_words();
    assert(text =~= before + head + gps + tail);
    assert(text.subrange(text.len() - tail.len(), text.len() as int) =~= tail);
}

/// From the row of the IMU on, the summary does not depend on the ages of the GPS, and of nothing
/// else than the freshness of the IMU.
pub proof fn law_the_imu_row_depends_on_the_imu_alone(
    metrics: MetricTexts,
    timing: TimingDiagnostics,
    fixes: GpsDiagnostics,
    tracker: TrackerDiagnostics,
    assumptions: EstimatorAssumptions,
    other_metrics: MetricTexts,
    other_timing: TimingDiagnostics,
    other_fixes: GpsDiagnostics,
    other_tracker: TrackerDiagnostics,
    other_assumptions: EstimatorAssumptions,
)
    requires
        metrics.imu_ages == other_metrics.imu_ages,
        timing.imu_freshness == other_timing.imu_freshness,
    ensures
        exists|tail: Seq<char>| #[trigger]
            ends_with(summary(metrics, timing, fixes, tracker, assumptions), tail) && ends_with(
                summary(
                    other_metrics,
                    other_timing,
                    other_fixes,
                    other_tracker,
                    other_assumptions,
                ),
                tail,
            ) && shows(tail, row_of("IMU"@, timing.imu_freshness, metrics.imu_ages)),
{
    let imu = row_of("IMU"@, timing.imu_freshness, metrics.imu_ages);
    law_each_row_shows_its_own_sensor(metrics, timing, fixes, tracker, assumptions);
    law_each_row_shows_its_own_sensor(
        other_metrics,
        other_timing,
        other_fixes,
        other_tracker,
        other_assumptions,
    );
    lemma_shows_itself(imu);
    lemma_shows_left(imu, last_words(), imu);
    assert(ends_with(
        summary(metrics, timing, fixes, tracker, assumptions),
        imu + last_words(),
    ));
}

/// A row with all three ages shows them in seconds, in their order; without a packet it shows that
/// none is available.
pub proof fn law_a_row_shows_three_ages(
    name: Seq<char>,
    freshness: SensorFreshness,
    ages: AgeTexts,
)
    ensures
        freshness_row(name, freshness, ages) == row_of(name, freshness, ages),
        freshness.final_receipt_age_ns is Some && freshness.final_measurement_age_ns is Some
            && freshness.maximum_receipt_gap_ns is Some ==> freshness_row(name, freshness, ages)
            == name + " | "@ + ages.final_receipt_age_s@ + " s | "@ + ages.final_measurement_age_s@
            + " s | "@ + ages.maximum_receipt_gap_s@ + " s\n"@,
        freshness.final_receipt_age_ns is None && freshness.final_measurement_age_ns is None
            && freshness.maximum_receipt_gap_ns is None ==> freshness_row(name, freshness, ages)
            == name + " | unavailable | unavailable | unavailable\n"@,
{
    reveal_strlit(" | ");
    reveal_strlit(" s");
    reveal_strlit("\n");
    reveal_strlit(" s | ");
    reveal_strlit(" s\n");
    reveal_strlit("unavailable");
    reveal_strlit(" | unavailable | unavailable | unavailable\n");
    let row = freshness_row(name, freshness, ages);
    if freshness.final_receipt_age_ns is Some && freshness.final_measurement_age_ns is Some
        && freshness.maximum_receipt_gap_ns is Some {
        assert(" s | "@ =~= " s"@ + " | "@);
        assert(" s\n"@ =~= " s"@ + "\n"@);
        assert(row =~= name + " | "@ + ages.final_receipt_age_s@ + " s | "@
            + ages.final_measurement_age_s@ + " s | "@ + ages.maximum_receipt_gap_s@ + " s\n"@);
    }
    if freshness.final_receipt_age_ns is None && freshness.final_measurement_age_ns is None
        && freshness.maximum_receipt_gap_ns is None {
        assert(" | unavailable | unavailable | unavailable\n"@ =~= " | "@ + "unavailable"@ + " | "@
            + "unavailable"@ + " | "@ + "unavailable"@ + "\n"@);
        assert(row =~= name + " | unavailable | unavailable | unavailable\n"@);
    }
}

/// The error of tracks is shown in metres, and where no track was matched the text says so.
pub proof fn law_track_errors_are_shown(value: Option<String>)
    ensures
        track_rmse_shown(text_view(value)) == metres_or(value, "— (no matched tracks)"@),
{
}

} // verus!
