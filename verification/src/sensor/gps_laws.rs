//! What the receiver's fixes say, in terms of its samples.
use vstd::prelude::*;

use crate::binary64::Binary64;
use crate::bundle::MeasurementRecord;
use crate::estimator::schedule::count_below;
use crate::scenario::GpsConfig;
use crate::text::padded_decimal;

use super::gps::{goes_on_with_fixes, is_fix, kept, spec_is_silent, GpsDraw};
use super::PendingMeasurement;

verus! {

/// Whether a time lies in the dropout, which has its start but not its end.
pub open spec fn is_in_dropout(config: GpsConfig, time_s: Binary64) -> bool {
    &&& config.dropout_start_s matches Some(start) && start.at_most(time_s)
    &&& config.dropout_end_s matches Some(end) && time_s.less_than(end)
}

/// The receiver is silent exactly in its dropout.
pub proof fn law_silence_is_the_dropout(config: GpsConfig, time_s: Binary64)
    ensures
        spec_is_silent(config, time_s) <==> is_in_dropout(config, time_s),
{
}

/// How many of the first `count` samples lie outside the dropout.
pub open spec fn heard(config: GpsConfig, draws: Seq<GpsDraw>, count: int) -> nat {
    count_below(count, |k: int| !is_in_dropout(config, draws[k].time_s))
}

proof fn lemma_kept_places(config: GpsConfig, draws: Seq<GpsDraw>, count: int)
    requires
        0 <= count <= draws.len(),
    ensures
        kept(config, draws.take(count)).len() == heard(config, draws, count),
        forall|k: int|
            #![trigger draws[k]]
            0 <= k < count && !is_in_dropout(config, draws[k].time_s) ==> heard(config, draws, k)
                < kept(config, draws.take(count)).len() && kept(config, draws.take(count))[heard(
                config,
                draws,
                k,
            ) as int] == draws[k],
    decreases count,
{
    if count > 0 {
        lemma_kept_places(config, draws, count - 1);
        let last = draws[count - 1];
        assert(draws.take(count).drop_last() =~= draws.take(count - 1));
        assert(draws.take(count).last() == last);
        law_silence_is_the_dropout(config, last.time_s);
        let before = kept(config, draws.take(count - 1));
        let now = kept(config, draws.take(count));
        assert forall|k: int|
            #![trigger draws[k]]
            0 <= k < count && !is_in_dropout(config, draws[k].time_s) implies heard(
            config,
            draws,
            k,
        ) < now.len() && now[heard(config, draws, k) as int] == draws[k] by {
            if k < count - 1 {
                assert(before[heard(config, draws, k) as int] == draws[k]);
            }
        }
    }
}

/// One fix is added for each sample outside the dropout, in the order of the samples, and nothing
/// that was there before is touched.
pub proof fn law_every_heard_sample_becomes_a_fix(
    config: GpsConfig,
    variance_m2: Binary64,
    draws: Seq<GpsDraw>,
    before: Seq<PendingMeasurement>,
    output: Seq<PendingMeasurement>,
)
    requires
        goes_on_with_fixes(config, variance_m2, draws, before, output),
    ensures
        output.len() == before.len() + heard(config, draws, draws.len() as int),
        forall|i: int| 0 <= i < before.len() ==> #[trigger] output[i] == before[i],
{
    lemma_kept_places(config, draws, draws.len() as int);
    assert(draws.take(draws.len() as int) =~= draws);
}

/// Every fix that is added reports the receiver's own variance: nothing in it tells an outlier
/// from an ordinary fix.
pub proof fn law_fixes_do_not_tell_outliers(
    config: GpsConfig,
    variance_m2: Binary64,
    draws: Seq<GpsDraw>,
    before: Seq<PendingMeasurement>,
    output: Seq<PendingMeasurement>,
    index: int,
)
    requires
        goes_on_with_fixes(config, variance_m2, draws, before, output),
        before.len() <= index < output.len(),
    ensures
        output[index].measurement matches MeasurementRecord::Gps(fix)
            && fix.horizontal_position_variance_m2 == variance_m2,
        output[index].priority == 15,
        output[index].imu_bias_truth is None,
{
    let fixes = kept(config, draws);
    let i = index - before.len();
    assert(is_fix(config, variance_m2, fixes[i], output[before.len() + i]));
}

/// The fix of a sample was measured at the sample's time, arrives the receiver's latency later,
/// carries the sample's number in its name, and reports the position of an outlier exactly if the
/// sample's chance is below the probability of outliers.
pub proof fn law_a_fix_is_its_sample(
    config: GpsConfig,
    variance_m2: Binary64,
    draws: Seq<GpsDraw>,
    before: Seq<PendingMeasurement>,
    output: Seq<PendingMeasurement>,
    index: int,
)
    requires
        goes_on_with_fixes(config, variance_m2, draws, before, output),
        0 <= index < draws.len(),
        !is_in_dropout(config, draws[index].time_s),
        i64::MIN <= draws[index].time_ns + config.latency_ns <= i64::MAX,
    ensures
        ({
            let draw = draws[index];
            let pending = output[before.len() + heard(config, draws, index) as int];
            let arrival_ns = draw.time_ns + config.latency_ns;
            &&& before.len() + heard(config, draws, index) < output.len()
            &&& pending.arrival_ns == arrival_ns
            &&& pending.stable_event_id@ == "gps:"@ + padded_decimal(draw.sequence as nat, 10)
            &&& pending.measurement matches MeasurementRecord::Gps(fix)
            &&& fix.time matches Some(time)
            &&& time.measurement_time_ns == draw.time_ns
            &&& time.arrival_time_ns == arrival_ns
            &&& draw.chance.less_than(config.outlier_probability) ==> fix.position_world_m == Some(
                draw.outlier_position_m,
            )
            &&& !draw.chance.less_than(config.outlier_probability) ==> fix.position_world_m
                == Some(draw.ordinary_position_m)
        }),
{
    lemma_kept_places(config, draws, draws.len() as int);
    assert(draws.take(draws.len() as int) =~= draws);
    let fixes = kept(config, draws);
    let i = heard(config, draws, index) as int;
    assert(fixes[i] == draws[index]);
    assert(is_fix(config, variance_m2, fixes[i], output[before.len() + i]));
}

} // verus!
