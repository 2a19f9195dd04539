//! What the verdict on a scenario amounts to.
use vstd::prelude::*;

use crate::binary64::{Binary64, TAU, ZERO};

use super::defaults::{
    default_camera, default_ego_estimator, default_gps, default_imu, default_lidar,
    default_metrics, default_object_tracker,
};
use super::rules::{
    estimator_quantities, noise_quantities, noises_verdict, objects_verdict, parameters_verdict,
    scenario_verdict, segments_verdict, EstimatorParameter, NoiseParameter, ScenarioArithmetic,
    ScenarioError, LOWEST_SPEED_MPS, PERIOD_TOLERANCE_NS,
};
use super::{MotionSegment, ObjectConfig, ResolvedScenario};

verus! {

pub open spec fn sensor_is_valid(
    enabled: bool,
    rate_hz: Binary64,
    period_error_ns: Binary64,
    latency_ns: i64,
) -> bool {
    &&& enabled ==> rate_hz.is_finite() && rate_hz.is_positive() && period_error_ns.less_than(
        Binary64 { bits: PERIOD_TOLERANCE_NS },
    )
    &&& latency_ns >= 0
}

pub open spec fn view_is_valid(
    horizontal_fov_rad: Binary64,
    max_range_m: Binary64,
    detection_probability: Binary64,
) -> bool {
    &&& horizontal_fov_rad.is_positive() && horizontal_fov_rad.at_most(Binary64 { bits: TAU })
    &&& max_range_m.is_finite() && max_range_m.is_positive()
    &&& detection_probability.is_probability()
}

/// At least one object, all named and no name used twice, all in finite states.
pub open spec fn world_is_valid(objects: Seq<ObjectConfig>) -> bool {
    &&& objects.len() > 0
    &&& forall|i: int|
        #![trigger objects[i]]
        0 <= i < objects.len() ==> {
            &&& objects[i].id@.len() > 0
            &&& objects[i].initial_position_m.finite()
            &&& objects[i].velocity_world_mps.finite()
        }
    &&& forall|i: int, j: int|
        0 <= i < j < objects.len() ==> (#[trigger] objects[i]).id@ != (#[trigger] objects[j]).id@
}

/// At least one segment, all named and no name used twice, all of finite motion for some time,
/// and none that ends moving backwards.
pub open spec fn trajectory_is_valid(
    trajectory: Seq<MotionSegment>,
    forward_speed_mps: Seq<Binary64>,
) -> bool {
    &&& trajectory.len() > 0
    &&& forall|i: int|
        #![trigger trajectory[i]]
        0 <= i < trajectory.len() ==> {
            &&& trajectory[i].id@.len() > 0
            &&& trajectory[i].duration_s.is_finite() && trajectory[i].duration_s.is_positive()
            &&& trajectory[i].longitudinal_acceleration_mps2.is_finite()
            &&& trajectory[i].yaw_rate_radps.is_finite()
            &&& (Binary64 { bits: LOWEST_SPEED_MPS }).at_most(forward_speed_mps[i])
        }
    &&& forall|i: int, j: int|
        0 <= i < j < trajectory.len() ==> (#[trigger] trajectory[i]).id@ != (
        #[trigger] trajectory[j]).id@
}

pub open spec fn noises_are_valid(quantities: Seq<(Binary64, NoiseParameter)>) -> bool {
    forall|i: int|
        #![trigger quantities[i]]
        0 <= i < quantities.len() ==> quantities[i].0.is_finite()
            && quantities[i].0.is_nonnegative()
}

pub open spec fn parameters_are_valid(quantities: Seq<(Binary64, EstimatorParameter)>) -> bool {
    forall|i: int|
        #![trigger quantities[i]]
        0 <= i < quantities.len() ==> quantities[i].0.is_finite() && quantities[i].0.is_positive()
}

/// Everything that an accepted scenario meets.
pub open spec fn scenario_is_valid(
    scenario: ResolvedScenario,
    arithmetic: ScenarioArithmetic,
) -> bool {
    &&& scenario.motion_speed_factor.is_finite() && scenario.motion_speed_factor.is_positive()
    &&& scenario.imu.enabled
    &&& sensor_is_valid(
        scenario.imu.enabled,
        scenario.imu.rate_hz,
        arithmetic.imu_period_error_ns,
        scenario.imu.latency_ns,
    )
    &&& sensor_is_valid(
        scenario.gps.enabled,
        scenario.gps.rate_hz,
        arithmetic.gps_period_error_ns,
        scenario.gps.latency_ns,
    )
    &&& sensor_is_valid(
        scenario.camera.enabled,
        scenario.camera.rate_hz,
        arithmetic.camera_period_error_ns,
        scenario.camera.latency_ns,
    )
    &&& sensor_is_valid(
        scenario.lidar.enabled,
        scenario.lidar.rate_hz,
        arithmetic.lidar_period_error_ns,
        scenario.lidar.latency_ns,
    )
    &&& scenario.imu.clock_offset_ns >= 0
    &&& noises_are_valid(noise_quantities(scenario))
    &&& view_is_valid(
        scenario.camera.horizontal_fov_rad,
        scenario.camera.max_range_m,
        scenario.camera.detection_probability,
    )
    &&& scenario.gps.outlier_probability.is_probability()
    &&& view_is_valid(
        scenario.lidar.horizontal_fov_rad,
        scenario.lidar.max_range_m,
        scenario.lidar.detection_probability,
    )
    &&& scenario.lidar.scan_duration_ns >= 0
    &&& world_is_valid(scenario.world.objects@)
    &&& trajectory_is_valid(scenario.trajectory@, arithmetic.forward_speed_mps@)
    &&& scenario.ego_estimator.history_duration_ns >= 0
    &&& scenario.object_tracker.history_duration_ns >= 0
    &&& parameters_are_valid(estimator_quantities(scenario))
    &&& scenario.metrics.max_truth_match_gap_ns >= 0
    &&& scenario.object_tracker.confirmation_hits > 0
    &&& scenario.metrics.ego_divergence_position_error_m.is_positive()
    &&& scenario.metrics.track_divergence_position_error_m.is_positive()
}

proof fn lemma_objects(objects: Seq<ObjectConfig>, count: int)
    requires
        0 <= count <= objects.len(),
    ensures
        objects_verdict(objects, count) is Ok <==> {
            &&& forall|i: int|
                #![trigger objects[i]]
                0 <= i < count ==> {
                    &&& objects[i].id@.len() > 0
                    &&& objects[i].initial_position_m.finite()
                    &&& objects[i].velocity_world_mps.finite()
                }
            &&& forall|i: int, j: int|
                0 <= i < j < count ==> (#[trigger] objects[i]).id@ != (#[trigger] objects[j]).id@
        },
    decreases count,
{
    if count > 0 {
        lemma_objects(objects, count - 1);
        let last = objects[count - 1];
    }
}

proof fn lemma_segments(
    trajectory: Seq<MotionSegment>,
    forward_speed_mps: Seq<Binary64>,
    count: int,
)
    requires
        0 <= count <= trajectory.len(),
    ensures
        segments_verdict(trajectory, forward_speed_mps, count) is Ok <==> {
            &&& forall|i: int|
                #![trigger trajectory[i]]
                0 <= i < count ==> {
                    &&& trajectory[i].id@.len() > 0
                    &&& trajectory[i].duration_s.is_finite()
                        && trajectory[i].duration_s.is_positive()
                    &&& trajectory[i].longitudinal_acceleration_mps2.is_finite()
                    &&& trajectory[i].yaw_rate_radps.is_finite()
                    &&& (Binary64 { bits: LOWEST_SPEED_MPS }).at_most(forward_speed_mps[i])
                }
            &&& forall|i: int, j: int|
                0 <= i < j < count ==> (#[trigger] trajectory[i]).id@ != (
                #[trigger] trajectory[j]).id@
        },
    decreases count,
{
    if count > 0 {
        lemma_segments(trajectory, forward_speed_mps, count - 1);
        let last = trajectory[count - 1];
    }
}

proof fn lemma_noises(quantities: Seq<(Binary64, NoiseParameter)>, count: int)
    requires
        0 <= count <= quantities.len(),
    ensures
        noises_verdict(quantities, count) is Ok <==> forall|i: int|
            #![trigger quantities[i]]
            0 <= i < count ==> quantities[i].0.is_finite() && quantities[i].0.is_nonnegative(),
    decreases count,
{
    if count > 0 {
        lemma_noises(quantities, count - 1);
        let last = quantities[count - 1];
    }
}

proof fn lemma_parameters(quantities: Seq<(Binary64, EstimatorParameter)>, count: int)
    requires
        0 <= count <= quantities.len(),
    ensures
        parameters_verdict(quantities, count) is Ok <==> forall|i: int|
            #![trigger quantities[i]]
            0 <= i < count ==> quantities[i].0.is_finite() && quantities[i].0.is_positive(),
    decreases count,
{
    if count > 0 {
        lemma_parameters(quantities, count - 1);
        let last = quantities[count - 1];
    }
}

/// A scenario is accepted if and only if it meets every rule.
pub proof fn law_accepted_means_valid(scenario: ResolvedScenario, arithmetic: ScenarioArithmetic)
    ensures
        scenario_verdict(scenario, arithmetic) is Ok <==> scenario_is_valid(scenario, arithmetic),
{
    lemma_objects(scenario.world.objects@, scenario.world.objects@.len() as int);
    lemma_segments(
        scenario.trajectory@,
        arithmetic.forward_speed_mps@,
        scenario.trajectory@.len() as int,
    );
    lemma_noises(noise_quantities(scenario), 9);
    lemma_parameters(estimator_quantities(scenario), 10);
}

proof fn lemma_object_errors(objects: Seq<ObjectConfig>, count: int)
    requires
        0 <= count <= objects.len() <= usize::MAX,
    ensures
        match objects_verdict(objects, count) {
            Err(ScenarioError::ObjectState { object }) => object < objects.len(),
            Err(error) => error == ScenarioError::ObjectId,
            Ok(()) => true,
        },
    decreases count,
{
    if count > 0 {
        lemma_object_errors(objects, count - 1);
    }
}

proof fn lemma_segment_errors(
    trajectory: Seq<MotionSegment>,
    forward_speed_mps: Seq<Binary64>,
    count: int,
)
    requires
        0 <= count <= trajectory.len() <= usize::MAX,
    ensures
        match segments_verdict(trajectory, forward_speed_mps, count) {
            Err(ScenarioError::SegmentDuration { segment }) => segment < trajectory.len(),
            Err(ScenarioError::SegmentMotion { segment }) => segment < trajectory.len(),
            Err(ScenarioError::SegmentSpeed { segment }) => segment < trajectory.len(),
            Err(error) => error == ScenarioError::SegmentId,
            Ok(()) => true,
        },
    decreases count,
{
    if count > 0 {
        lemma_segment_errors(trajectory, forward_speed_mps, count - 1);
    }
}

proof fn lemma_noise_errors(quantities: Seq<(Binary64, NoiseParameter)>, count: int)
    ensures
        noises_verdict(quantities, count) matches Err(error) ==> error is Noise,
    decreases count,
{
    if count > 0 {
        lemma_noise_errors(quantities, count - 1);
    }
}

proof fn lemma_parameter_errors(quantities: Seq<(Binary64, EstimatorParameter)>, count: int)
    ensures
        parameters_verdict(quantities, count) matches Err(error) ==> error is Estimator,
    decreases count,
{
    if count > 0 {
        lemma_parameter_errors(quantities, count - 1);
    }
}

/// A verdict that names an object or a segment names one that the scenario has, so it can always
/// be put into words.
pub proof fn law_errors_are_about_the_scenario(
    scenario: ResolvedScenario,
    arithmetic: ScenarioArithmetic,
)
    requires
        scenario.world.objects@.len() <= usize::MAX,
        scenario.trajectory@.len() <= usize::MAX,
    ensures
        scenario_verdict(scenario, arithmetic) matches Err(error) ==> error.is_about(scenario),
{
    lemma_object_errors(scenario.world.objects@, scenario.world.objects@.len() as int);
    lemma_segment_errors(
        scenario.trajectory@,
        arithmetic.forward_speed_mps@,
        scenario.trajectory@.len() as int,
    );
    lemma_noise_errors(noise_quantities(scenario), 9);
    lemma_parameter_errors(
        estimator_quantities(scenario),
        estimator_quantities(scenario).len() as int,
    );
}

/// What a scenario leaves unsaid meets the rules: with its sensors, estimators and metrics as they
/// are by default, it is valid as soon as its world and its motion are, and the sampling periods
/// are whole.
pub proof fn law_defaults_are_valid(scenario: ResolvedScenario, arithmetic: ScenarioArithmetic)
    requires
        scenario.motion_speed_factor.is_finite() && scenario.motion_speed_factor.is_positive(),
        scenario.imu == default_imu(),
        scenario.gps == default_gps(),
        scenario.camera == default_camera(),
        scenario.lidar == default_lidar(),
        scenario.ego_estimator == default_ego_estimator(),
        scenario.object_tracker == default_object_tracker(),
        scenario.metrics == default_metrics(),
        arithmetic.imu_period_error_ns.bits == ZERO,
        arithmetic.gps_period_error_ns.bits == ZERO,
        arithmetic.camera_period_error_ns.bits == ZERO,
        arithmetic.lidar_period_error_ns.bits == ZERO,
        world_is_valid(scenario.world.objects@),
        trajectory_is_valid(scenario.trajectory@, arithmetic.forward_speed_mps@),
    ensures
        scenario_is_valid(scenario, arithmetic),
{
    let noises = noise_quantities(scenario);
    assert forall|i: int|
        #![trigger noises[i]]
        0 <= i < noises.len() implies noises[i].0.is_finite() && noises[i].0.is_nonnegative() by {
    }
    let parameters = estimator_quantities(scenario);
    assert forall|i: int|
        #![trigger parameters[i]]
        0 <= i < parameters.len() implies parameters[i].0.is_finite()
        && parameters[i].0.is_positive() by {
    }
}

} // verus!
