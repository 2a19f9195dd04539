use fusion::binary64::Binary64;
use fusion::bundle::MeasurementRecord;
use fusion::messages::{GpsFix, MeasurementTime, Vec2};
use fusion::scenario::GpsConfig;
use fusion::sensor::gps::{generate, is_silent, GpsDraw};
use fusion::sensor::PendingMeasurement;

fn number(value: f64) -> Binary64 {
    Binary64 {
        bits: value.to_bits(),
    }
}

fn position(value: f64) -> Vec2 {
    Vec2 {
        x: number(value),
        y: number(-value),
    }
}

fn draw(time_ns: i64, sequence: u64, chance: f64) -> GpsDraw {
    GpsDraw {
        time_ns,
        time_s: number(time_ns as f64 / 1e9),
        sequence,
        chance: number(chance),
        ordinary_position_m: position(1.0),
        outlier_position_m: position(100.0),
    }
}

fn fix(pending: &PendingMeasurement) -> GpsFix {
    match &pending.measurement {
        MeasurementRecord::Gps(fix) => *fix,
        _ => panic!("not a fix"),
    }
}

#[test]
fn samples_become_fixes_on_their_way() {
    let config = GpsConfig {
        latency_ns: 250,
        outlier_probability: number(0.1),
        ..Default::default()
    };
    let mut output = Vec::new();
    generate(
        &config,
        number(0.0625),
        &[draw(1_000, 0, 0.5), draw(2_000, 17, 0.05)],
        &mut output,
    );
    assert_eq!(output.len(), 2);
    assert_eq!(output[0].arrival_ns, 1_250);
    assert_eq!(output[0].priority, 15);
    assert_eq!(output[0].stable_event_id, "gps:0000000000");
    assert!(output[0].imu_bias_truth.is_none());
    assert_eq!(
        fix(&output[0]),
        GpsFix {
            time: Some(MeasurementTime {
                measurement_time_ns: 1_000,
                arrival_time_ns: 1_250,
            }),
            position_world_m: Some(position(1.0)),
            horizontal_position_variance_m2: number(0.0625),
        }
    );
    assert_eq!(output[1].stable_event_id, "gps:0000000017");
    assert_eq!(fix(&output[1]).position_world_m, Some(position(100.0)));
}

#[test]
fn outliers_need_a_chance_below_their_probability() {
    let config = GpsConfig {
        outlier_probability: number(0.0),
        ..Default::default()
    };
    let mut output = Vec::new();
    generate(&config, number(1.0), &[draw(0, 0, 0.0)], &mut output);
    assert_eq!(fix(&output[0]).position_world_m, Some(position(1.0)));
}

#[test]
fn a_dropout_ends_before_its_end() {
    let config = GpsConfig {
        dropout_start_s: Some(number(2.0)),
        dropout_end_s: Some(number(3.0)),
        ..Default::default()
    };
    assert!(!is_silent(&config, number(1.999)));
    assert!(is_silent(&config, number(2.0)));
    assert!(is_silent(&config, number(2.999)));
    assert!(!is_silent(&config, number(3.0)));
    let open = GpsConfig {
        dropout_end_s: None,
        ..config
    };
    assert!(!is_silent(&open, number(2.5)));
    let mut output = Vec::new();
    generate(
        &config,
        number(1.0),
        &[
            draw(1_500_000_000, 3, 1.0),
            draw(2_000_000_000, 4, 1.0),
            draw(2_500_000_000, 5, 1.0),
            draw(3_000_000_000, 6, 1.0),
        ],
        &mut output,
    );
    let names: Vec<&str> = output
        .iter()
        .map(|pending| pending.stable_event_id.as_str())
        .collect();
    assert_eq!(names, vec!["gps:0000000003", "gps:0000000006"]);
}

#[test]
fn fixes_are_added_behind_what_is_there() {
    let config = GpsConfig::default();
    let mut output = Vec::new();
    generate(&config, number(1.0), &[draw(0, 0, 1.0)], &mut output);
    generate(&config, number(1.0), &[draw(9, 1, 1.0)], &mut output);
    assert_eq!(output.len(), 2);
    assert_eq!(output[0].stable_event_id, "gps:0000000000");
    assert_eq!(output[1].arrival_ns, 9);
}

#[test]
fn a_sample_in_a_dropout_may_lie_anywhere() {
    let config = GpsConfig {
        latency_ns: i64::MAX,
        dropout_start_s: Some(number(1.0)),
        dropout_end_s: Some(number(3.0)),
        ..Default::default()
    };
    let mut output = Vec::new();
    generate(
        &config,
        number(1.0),
        &[draw(0, 0, 1.0), draw(2_000_000_000, 1, 1.0)],
        &mut output,
    );
    assert_eq!(output.len(), 1);
    assert_eq!(output[0].arrival_ns, i64::MAX);
}
