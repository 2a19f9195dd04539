//! The GPS receiver: when it falls silent, which fixes are outliers, and when fixes arrive.
use vstd::prelude::*;

use crate::binary64::Binary64;
use crate::bundle::MeasurementRecord;
use crate::messages::{GpsFix, Vec2};
use crate::scenario::GpsConfig;
use crate::text::{law_padding_is_injective, padded_decimal, padded_text};

use super::{measurement_time, spec_measurement_time, PendingMeasurement};

verus! {

/// Among measurements that arrive together.
pub const DELIVERY_PRIORITY: u8 = 15;

/// One sample of the receiver before it is decided what becomes of it. Where the vehicle is and
/// how far noise moves the fix is settled for both cases: as an ordinary fix and as an outlier.
#[derive(Debug, Clone, Copy, PartialEq, Eq, Structural)]
pub struct GpsDraw {
    pub time_ns: i64,
    /// `time_ns` in seconds.
    pub time_s: Binary64,
    pub sequence: u64,
    /// A random number from 0 to 1.
    pub chance: Binary64,
    pub ordinary_position_m: Vec2,
    pub outlier_position_m: Vec2,
}

/// Whether the receiver is silent at a time: from the start of a dropout up to its end, which is
/// not part of it. Without a start or without an end there is no dropout.
pub open spec fn spec_is_silent(config: GpsConfig, time_s: Binary64) -> bool {
    match (config.dropout_start_s, config.dropout_end_s) {
        (Some(start), Some(end)) => start.at_most(time_s) && time_s.less_than(end),
        _ => false,
    }
}

pub fn is_silent(config: &GpsConfig, time_s: Binary64) -> (answer: bool)
    ensures
        answer == spec_is_silent(*config, time_s),
{
    match (config.dropout_start_s, config.dropout_end_s) {
        (Some(start), Some(end)) => start.at_most(time_s) && time_s.less_than(end),
        _ => false,
    }
}

/// The samples that become fixes.
pub open spec fn kept(config: GpsConfig, draws: Seq<GpsDraw>) -> Seq<GpsDraw>
    decreases draws.len(),
{
    if draws.len() == 0 {
        Seq::empty()
    } else if spec_is_silent(config, draws.last().time_s) {
        kept(config, draws.drop_last())
    } else {
        kept(config, draws.drop_last()).push(draws.last())
    }
}

/// The position that a fix reports.
pub open spec fn reported_position(config: GpsConfig, draw: GpsDraw) -> Vec2 {
    if draw.chance.less_than(config.outlier_probability) {
        draw.outlier_position_m
    } else {
        draw.ordinary_position_m
    }
}

/// The name of a fix.
pub open spec fn event_id(sequence: u64) -> Seq<char> {
    "gps:"@ + padded_decimal(sequence as nat, 10)
}

/// Whether `pending` is the fix that a sample becomes. `variance_m2` is the square of the
/// receiver's standard deviation.
pub open spec fn is_fix(
    config: GpsConfig,
    variance_m2: Binary64,
    draw: GpsDraw,
    pending: PendingMeasurement,
) -> bool {
    let arrival_ns = (draw.time_ns + config.latency_ns) as i64;
    &&& pending.arrival_ns == arrival_ns
    &&& pending.priority == DELIVERY_PRIORITY
    &&& pending.stable_event_id@ == event_id(draw.sequence)
    &&& pending.measurement == MeasurementRecord::Gps(
        GpsFix {
            time: Some(spec_measurement_time(draw.time_ns, arrival_ns)),
            position_world_m: Some(reported_position(config, draw)),
            horizontal_position_variance_m2: variance_m2,
        },
    )
    &&& pending.imu_bias_truth is None
}

/// Whether `output` goes on from `before` with the fixes that the samples become.
pub open spec fn goes_on_with_fixes(
    config: GpsConfig,
    variance_m2: Binary64,
    draws: Seq<GpsDraw>,
    before: Seq<PendingMeasurement>,
    output: Seq<PendingMeasurement>,
) -> bool {
    let fixes = kept(config, draws);
    &&& output.len() == before.len() + fixes.len()
    &&& forall|i: int| 0 <= i < before.len() ==> output[i] == before[i]
    &&& forall|i: int|
        0 <= i < fixes.len() ==> is_fix(
            config,
            variance_m2,
            #[trigger] fixes[i],
            output[before.len() + i],
        )
}

/// Whether every fix arrives at a time that fits. A sample that becomes none may lie anywhere.
pub open spec fn arrivals_fit(config: GpsConfig, draws: Seq<GpsDraw>) -> bool {
    forall|i: int|
        0 <= i < draws.len() && !spec_is_silent(config, (#[trigger] draws[i]).time_s)
            ==> i64::MIN <= draws[i].time_ns + config.latency_ns <= i64::MAX
}

/// Turns the samples of the receiver into fixes on their way.
pub fn generate(
    config: &GpsConfig,
    variance_m2: Binary64,
    draws: &[GpsDraw],
    output: &mut Vec<PendingMeasurement>,
)
    requires
        arrivals_fit(*config, draws@),
    ensures
        goes_on_with_fixes(*config, variance_m2, draws@, old(output)@, final(output)@),
        forall|i: int|
            old(output).len() <= i < final(output).len() ==> ((
            #[trigger] final(output)@[i]).measurement matches MeasurementRecord::Gps(fix)
                && fix.horizontal_position_variance_m2 == variance_m2),
{
    let ghost before = output@;
    let mut index: usize = 0;
    assert(draws@.take(0) =~= Seq::empty());
    while index < draws.len()
        invariant
            index <= draws.len(),
            arrivals_fit(*config, draws@),
            goes_on_with_fixes(
                *config,
                variance_m2,
                draws@.take(index as int),
                before,
                output@,
            ),
        decreases draws.len() - index,
    {
        let draw = draws[index];
        let ghost so_far = output@;
        let ghost fixes = kept(*config, draws@.take(index as int));
        proof {
            let taken = draws@.take(index as int + 1);
            assert(taken.drop_last() =~= draws@.take(index as int));
            assert(taken.last() == draw);
        }
        if !is_silent(config, draw.time_s) {
            let position = if draw.chance.less_than(config.outlier_probability) {
                draw.outlier_position_m
            } else {
                draw.ordinary_position_m
            };
            let arrival_ns: i64 = draw.time_ns + config.latency_ns;
            let mut stable_event_id = "gps:".to_owned();
            stable_event_id.append(padded_text(draw.sequence, 10).as_str());
            let pending = PendingMeasurement {
                arrival_ns,
                priority: DELIVERY_PRIORITY,
                stable_event_id,
                measurement: MeasurementRecord::Gps(
                    GpsFix {
                        time: Some(measurement_time(draw.time_ns, arrival_ns)),
                        position_world_m: Some(position),
                        horizontal_position_variance_m2: variance_m2,
                    },
                ),
                imu_bias_truth: None,
            };
            assert(is_fix(*config, variance_m2, draw, pending));
            output.push(pending);
            proof {
                let now = kept(*config, draws@.take(index as int + 1));
                assert(now == fixes.push(draw));
                assert forall|i: int| 0 <= i < now.len() implies is_fix(
                    *config,
                    variance_m2,
                    #[trigger] now[i],
                    output@[before.len() + i],
                ) by {
                    if i < fixes.len() {
                        assert(now[i] == fixes[i]);
                        assert(output@[before.len() + i] == so_far[before.len() + i]);
                    }
                }
            }
        }
        index = index + 1;
    }
    assert(draws@.take(draws@.len() as int) =~= draws@);
    proof {
        let fixes = kept(*config, draws@);
        assert forall|i: int| before.len() <= i < output.len() implies ((
        #[trigger] output@[i]).measurement matches MeasurementRecord::Gps(fix)
            && fix.horizontal_position_variance_m2 == variance_m2) by {
            assert(is_fix(
                *config,
                variance_m2,
                fixes[i - before.len()],
                output@[before.len() + (i - before.len())],
            ));
        }
    }
}

/// No sample from inside a dropout becomes a fix, and every other one does.
pub proof fn law_only_silence_drops_samples(config: GpsConfig, draws: Seq<GpsDraw>, draw: GpsDraw)
    ensures
        kept(config, draws).contains(draw) <==> draws.contains(draw) && !spec_is_silent(
            config,
            draw.time_s,
        ),
    decreases draws.len(),
{
    if draws.len() > 0 {
        let rest = draws.drop_last();
        law_only_silence_drops_samples(config, rest, draw);
        assert(draws =~= rest.push(draws.last()));
        assert(draws.contains(draw) <==> rest.contains(draw) || draw == draws.last()) by {
            lemma_contains_after_push(rest, draws.last(), draw);
        }
        if !spec_is_silent(config, draws.last().time_s) {
            lemma_contains_after_push(kept(config, rest), draws.last(), draw);
        }
    }
}

proof fn lemma_contains_after_push(list: Seq<GpsDraw>, added: GpsDraw, wanted: GpsDraw)
    ensures
        list.push(added).contains(wanted) <==> list.contains(wanted) || wanted == added,
{
    let longer = list.push(added);
    if list.contains(wanted) {
        let k = choose|k: int| 0 <= k < list.len() && list[k] == wanted;
        assert(longer[k] == wanted);
    }
    if wanted == added {
        assert(longer[longer.len() - 1] == wanted);
    }
    if longer.contains(wanted) {
        let k = choose|k: int| 0 <= k < longer.len() && longer[k] == wanted;
        if k < list.len() {
            assert(list[k] == wanted);
        }
    }
}

/// Fixes with different numbers have different names.
pub proof fn law_names_are_distinct(a: u64, b: u64)
    requires
        event_id(a) == event_id(b),
    ensures
        a == b,
{
    let prefix = "gps:"@;
    let first = padded_decimal(a as nat, 10);
    let second = padded_decimal(b as nat, 10);
    assert(first =~= (prefix + first).skip(prefix.len() as int));
    assert(second =~= (prefix + second).skip(prefix.len() as int));
    law_padding_is_injective(a as nat, b as nat, 10);
}

/// A fix never arrives before it was measured, unless the receiver is ahead of time.
pub proof fn law_fixes_arrive_after_they_are_measured(
    config: GpsConfig,
    variance_m2: Binary64,
    draw: GpsDraw,
    pending: PendingMeasurement,
)
    requires
        config.latency_ns >= 0,
        draw.time_ns + config.latency_ns <= i64::MAX,
        is_fix(config, variance_m2, draw, pending),
    ensures
        pending.measurement.optional_time() matches Some(time) && time.measurement_time_ns
            == draw.time_ns && time.arrival_time_ns == pending.arrival_ns
            && time.measurement_time_ns <= time.arrival_time_ns,
{
}

} // verus!
