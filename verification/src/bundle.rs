//! The files of a run: which messages they hold, and what reading them gives back.
//!
//! The payload of a message is a serialized record. It is handed over and handed out as bytes.
use vstd::prelude::*;

use crate::container::{
    container_items, entry_views, is_intact, is_written, lane_views, read_container, readable,
    reader_answers, stored_views, write_container, Entry, EntryView, Lane, LaneView, MessageView,
    StoredMessage, StoredView, WrittenFile,
};
use crate::messages::{
    CameraFrame, EgoStateEstimate, EgoTruthState, GpsFix, ImuBiasTruth, ImuSample, LidarScan,
    MeasurementTime, ObjectTrackFrame, ObjectTruthState,
};

verus! {

/// A delivery of any sensor.
#[derive(Debug, Clone)]
pub enum MeasurementRecord {
    Imu(ImuSample),
    Gps(GpsFix),
    Camera(CameraFrame),
    Lidar(LidarScan),
}

/// The sensor that a delivery is from.
#[derive(Debug, Clone, Copy, PartialEq, Eq, Structural)]
pub enum RecordKind {
    Imu,
    Gps,
    Camera,
    Lidar,
}

/// Everything that the sensors and the world of a run produce.
#[derive(Debug, Clone)]
pub struct GeneratedRun {
    pub measurements: Vec<MeasurementRecord>,
    pub ego_truth_states: Vec<EgoTruthState>,
    pub object_truth_states: Vec<ObjectTruthState>,
    pub imu_bias_truth: Vec<ImuBiasTruth>,
}

impl MeasurementRecord {
    pub open spec fn optional_time(self) -> Option<MeasurementTime> {
        match self {
            MeasurementRecord::Imu(value) => value.time,
            MeasurementRecord::Gps(value) => value.time,
            MeasurementRecord::Camera(value) => value.time,
            MeasurementRecord::Lidar(value) => value.time,
        }
    }

    /// Whether the record carries its times, as every generated one does.
    pub open spec fn has_time(self) -> bool {
        self.optional_time() is Some
    }

    pub open spec fn spec_kind(self) -> RecordKind {
        match self {
            MeasurementRecord::Imu(_) => RecordKind::Imu,
            MeasurementRecord::Gps(_) => RecordKind::Gps,
            MeasurementRecord::Camera(_) => RecordKind::Camera,
            MeasurementRecord::Lidar(_) => RecordKind::Lidar,
        }
    }

    pub fn time(&self) -> (time: &MeasurementTime)
        requires
            self.has_time(),
        ensures
            Some(*time) == self.optional_time(),
    {
        match self {
            MeasurementRecord::Imu(value) => value.time.as_ref().unwrap(),
            MeasurementRecord::Gps(value) => value.time.as_ref().unwrap(),
            MeasurementRecord::Camera(value) => value.time.as_ref().unwrap(),
            MeasurementRecord::Lidar(value) => value.time.as_ref().unwrap(),
        }
    }

    pub fn kind(&self) -> (kind: RecordKind)
        ensures
            kind == self.spec_kind(),
    {
        match self {
            MeasurementRecord::Imu(_) => RecordKind::Imu,
            MeasurementRecord::Gps(_) => RecordKind::Gps,
            MeasurementRecord::Camera(_) => RecordKind::Camera,
            MeasurementRecord::Lidar(_) => RecordKind::Lidar,
        }
    }
}

impl RecordKind {
    /// The place among the lanes of a measurement file.
    pub open spec fn lane(self) -> int {
        match self {
            RecordKind::Imu => 0,
            RecordKind::Gps => 1,
            RecordKind::Camera => 2,
            RecordKind::Lidar => 3,
        }
    }

    pub open spec fn spec_schema(self) -> Seq<char> {
        match self {
            RecordKind::Imu => "fusion.ImuSample"@,
            RecordKind::Gps => "fusion.GpsFix"@,
            RecordKind::Camera => "fusion.CameraFrame"@,
            RecordKind::Lidar => "fusion.LidarScan"@,
        }
    }

    pub open spec fn spec_topic(self) -> Seq<char> {
        match self {
            RecordKind::Imu => "/measurement/imu"@,
            RecordKind::Gps => "/measurement/gps"@,
            RecordKind::Camera => "/measurement/camera"@,
            RecordKind::Lidar => "/measurement/lidar"@,
        }
    }

    fn place(self) -> (lane: usize)
        ensures
            lane == self.lane(),
    {
        match self {
            RecordKind::Imu => 0,
            RecordKind::Gps => 1,
            RecordKind::Camera => 2,
            RecordKind::Lidar => 3,
        }
    }

    /// The name of the schema of such records.
    pub fn schema(self) -> (name: &'static str)
        ensures
            name@ == self.spec_schema(),
    {
        match self {
            RecordKind::Imu => "fusion.ImuSample",
            RecordKind::Gps => "fusion.GpsFix",
            RecordKind::Camera => "fusion.CameraFrame",
            RecordKind::Lidar => "fusion.LidarScan",
        }
    }

    /// The topic of such records.
    pub fn topic(self) -> (name: &'static str)
        ensures
            name@ == self.spec_topic(),
    {
        match self {
            RecordKind::Imu => "/measurement/imu",
            RecordKind::Gps => "/measurement/gps",
            RecordKind::Camera => "/measurement/camera",
            RecordKind::Lidar => "/measurement/lidar",
        }
    }
}

/// The lane of one kind of record.
pub open spec fn lane_of(kind: RecordKind) -> LaneView {
    LaneView { schema: kind.spec_schema(), topic: kind.spec_topic() }
}

/// The lanes of a measurement file.
pub open spec fn measurement_lanes() -> Seq<LaneView> {
    seq![
        lane_of(RecordKind::Imu),
        lane_of(RecordKind::Gps),
        lane_of(RecordKind::Camera),
        lane_of(RecordKind::Lidar),
    ]
}

/// The entry of one record: logged when it arrived, published when it was measured, and numbered
/// by its place.
pub open spec fn measurement_entry(
    record: MeasurementRecord,
    payload: Seq<u8>,
    place: int,
) -> EntryView {
    EntryView {
        lane: record.spec_kind().lane(),
        sequence: place as u32,
        log_time_ns: record.optional_time()->0.arrival_time_ns as int,
        publish_time_ns: record.optional_time()->0.measurement_time_ns as int,
        data: payload,
    }
}

/// The entries of a measurement file.
pub open spec fn measurement_entries(
    records: Seq<MeasurementRecord>,
    payloads: Seq<Vec<u8>>,
) -> Seq<EntryView> {
    Seq::new(records.len(), |i: int| measurement_entry(records[i], payloads[i]@, i))
}

/// Whether every record carries its times.
pub open spec fn all_timed(records: Seq<MeasurementRecord>) -> bool {
    forall|i: int| 0 <= i < records.len() ==> (#[trigger] records[i]).has_time()
}

fn lane(schema: &str, topic: &str) -> (lane: Lane)
    ensures
        lane@ == (LaneView { schema: schema@, topic: topic@ }),
{
    Lane { schema: schema.to_owned(), topic: topic.to_owned() }
}

fn kind_lane(kind: RecordKind) -> (result: Lane)
    ensures
        result@ == lane_of(kind),
{
    lane(kind.schema(), kind.topic())
}

proof fn lemma_measurement_names()
    ensures
        forall|kind: RecordKind| #[trigger] kind.spec_schema().len() <= 20,
        forall|kind: RecordKind| #[trigger] kind.spec_topic().len() <= 20,
{
    reveal_strlit("fusion.ImuSample");
    reveal_strlit("fusion.GpsFix");
    reveal_strlit("fusion.CameraFrame");
    reveal_strlit("fusion.LidarScan");
    reveal_strlit("/measurement/imu");
    reveal_strlit("/measurement/gps");
    reveal_strlit("/measurement/camera");
    reveal_strlit("/measurement/lidar");
}

/// Writes the deliveries of a run, each with its payload. Fails on a negative time, and leaves
/// what stands before it.
pub fn write_measurements(
    records: &[MeasurementRecord],
    payloads: Vec<Vec<u8>>,
    descriptors: &[u8],
) -> (file: WrittenFile)
    requires
        all_timed(records@),
        records.len() == payloads.len(),
        descriptors.len() <= u32::MAX,
    ensures
        is_written(
            measurement_lanes(),
            descriptors@,
            measurement_entries(records@, payloads@),
            file,
        ),
{
    let lanes = vec![
        kind_lane(RecordKind::Imu),
        kind_lane(RecordKind::Gps),
        kind_lane(RecordKind::Camera),
        kind_lane(RecordKind::Lidar),
    ];
    proof {
        assert(lane_views(lanes@) =~= measurement_lanes());
        lemma_measurement_names();
    }
    let ghost expected = measurement_entries(records@, payloads@);
    let ghost bytes = payloads@;
    let mut entries: Vec<Entry> = Vec::new();
    for payload in iter: payloads.into_iter()
        invariant
            iter.seq() == bytes,
            all_timed(records@),
            records.len() == bytes.len(),
            expected == measurement_entries(records@, bytes),
            entries.len() == iter.index(),
            entry_views(entries@) == expected.take(iter.index() as int),
            forall|i: int| 0 <= i < entries.len() ==> (#[trigger] entries@[i]).lane < 4,
    {
        let place: usize = entries.len();
        let time = records[place].time();
        let entry = Entry {
            lane: records[place].kind().place(),
            sequence: #[verifier::truncate] (place as u32),
            log_time_ns: time.arrival_time_ns,
            publish_time_ns: time.measurement_time_ns,
            data: payload,
        };
        assert(entry@ == expected[place as int]);
        entries.push(entry);
        assert(entry_views(entries@) =~= expected.take(place as int + 1));
    }
    assert(expected.take(expected.len() as int) =~= expected);
    write_container(&lanes, descriptors, &entries)
}

/// The entry of a true state: logged and published at its time, and numbered by its place.
pub open spec fn truth_entry(lane: int, place: int, time_ns: i64, content: Seq<u8>) -> EntryView {
    EntryView {
        lane,
        sequence: place as u32,
        log_time_ns: time_ns as int,
        publish_time_ns: time_ns as int,
        data: content,
    }
}

pub open spec fn ego_entries(states: Seq<EgoTruthState>) -> Seq<EntryView> {
    Seq::new(
        states.len(),
        |i: int| truth_entry(0, i, states[i].time_ns, states[i].content@),
    )
}

pub open spec fn object_entries(states: Seq<ObjectTruthState>) -> Seq<EntryView> {
    Seq::new(
        states.len(),
        |i: int| truth_entry(1, i, states[i].time_ns, states[i].content@),
    )
}

pub open spec fn bias_entries(states: Seq<ImuBiasTruth>) -> Seq<EntryView> {
    Seq::new(
        states.len(),
        |i: int| truth_entry(2, i, states[i].time_ns, states[i].content@),
    )
}

/// The lanes of a truth file.
pub open spec fn truth_lanes() -> Seq<LaneView> {
    seq![
        LaneView { schema: "fusion.EgoTruthState"@, topic: "/truth/ego"@ },
        LaneView { schema: "fusion.ObjectTruthState"@, topic: "/truth/objects"@ },
        LaneView { schema: "fusion.ImuBiasTruth"@, topic: "/truth/imu_bias"@ },
    ]
}

/// The entries of a truth file: the vehicle, then the objects, then the biases.
pub open spec fn truth_entries(
    ego: Seq<EgoTruthState>,
    objects: Seq<ObjectTruthState>,
    imu_bias: Seq<ImuBiasTruth>,
) -> Seq<EntryView> {
    ego_entries(ego) + object_entries(objects) + bias_entries(imu_bias)
}

fn truth_entry_of(lane: usize, place: usize, time_ns: i64, content: &Vec<u8>) -> (entry: Entry)
    ensures
        entry@ == truth_entry(lane as int, place as int, time_ns, content@),
        entry.lane == lane,
{
    Entry {
        lane,
        sequence: #[verifier::truncate] (place as u32),
        log_time_ns: time_ns,
        publish_time_ns: time_ns,
        data: content.clone(),
    }
}

/// Adds the entries of `states`.
fn append_ego(entries: &mut Vec<Entry>, states: &[EgoTruthState])
    requires
        forall|i: int| 0 <= i < old(entries).len() ==> (#[trigger] old(entries)@[i]).lane < 3,
    ensures
        entry_views(final(entries)@) == entry_views(old(entries)@) + ego_entries(states@),
        forall|i: int| 0 <= i < final(entries).len() ==> (#[trigger] final(entries)@[i]).lane < 3,
{
    let ghost before = entry_views(entries@);
    let ghost expected = ego_entries(states@);
    let mut place: usize = 0;
    assert(entry_views(entries@) =~= before + expected.take(0));
    while place < states.len()
        invariant
            place <= states.len(),
            expected == ego_entries(states@),
            entry_views(entries@) == before + expected.take(place as int),
            forall|i: int| 0 <= i < entries.len() ==> (#[trigger] entries@[i]).lane < 3,
        decreases states.len() - place,
    {
        let state = &states[place];
        let entry = truth_entry_of(0, place, state.time_ns, &state.content);
        assert(entry@ == expected[place as int]);
        let ghost so_far = entry_views(entries@);
        entries.push(entry);
        assert(entry_views(entries@) =~= so_far.push(entry@));
        assert(entry_views(entries@) =~= before + expected.take(place as int + 1));
        place = place + 1;
    }
    assert(expected.take(expected.len() as int) =~= expected);
}

/// Adds the entries of `states`.
fn append_object(entries: &mut Vec<Entry>, states: &[ObjectTruthState])
    requires
        forall|i: int| 0 <= i < old(entries).len() ==> (#[trigger] old(entries)@[i]).lane < 3,
    ensures
        entry_views(final(entries)@) == entry_views(old(entries)@) + object_entries(states@),
        forall|i: int| 0 <= i < final(entries).len() ==> (#[trigger] final(entries)@[i]).lane < 3,
{
    let ghost before = entry_views(entries@);
    let ghost expected = object_entries(states@);
    let mut place: usize = 0;
    assert(entry_views(entries@) =~= before + expected.take(0));
    while place < states.len()
        invariant
            place <= states.len(),
            expected == object_entries(states@),
            entry_views(entries@) == before + expected.take(place as int),
            forall|i: int| 0 <= i < entries.len() ==> (#[trigger] entries@[i]).lane < 3,
        decreases states.len() - place,
    {
        let state = &states[place];
        let entry = truth_entry_of(1, place, state.time_ns, &state.content);
        assert(entry@ == expected[place as int]);
        let ghost so_far = entry_views(entries@);
        entries.push(entry);
        assert(entry_views(entries@) =~= so_far.push(entry@));
        assert(entry_views(entries@) =~= before + expected.take(place as int + 1));
        place = place + 1;
    }
    assert(expected.take(expected.len() as int) =~= expected);
}

/// Adds the entries of `states`.
fn append_bias(entries: &mut Vec<Entry>, states: &[ImuBiasTruth])
    requires
        forall|i: int| 0 <= i < old(entries).len() ==> (#[trigger] old(entries)@[i]).lane < 3,
    ensures
        entry_views(final(entries)@) == entry_views(old(entries)@) + bias_entries(states@),
        forall|i: int| 0 <= i < final(entries).len() ==> (#[trigger] final(entries)@[i]).lane < 3,
{
    let ghost before = entry_views(entries@);
    let ghost expected = bias_entries(states@);
    let mut place: usize = 0;
    assert(entry_views(entries@) =~= before + expected.take(0));
    while place < states.len()
        invariant
            place <= states.len(),
            expected == bias_entries(states@),
            entry_views(entries@) == before + expected.take(place as int),
            forall|i: int| 0 <= i < entries.len() ==> (#[trigger] entries@[i]).lane < 3,
        decreases states.len() - place,
    {
        let state = &states[place];
        let entry = truth_entry_of(2, place, state.time_ns, &state.content);
        assert(entry@ == expected[place as int]);
        let ghost so_far = entry_views(entries@);
        entries.push(entry);
        assert(entry_views(entries@) =~= so_far.push(entry@));
        assert(entry_views(entries@) =~= before + expected.take(place as int + 1));
        place = place + 1;
    }
    assert(expected.take(expected.len() as int) =~= expected);
}

/// Writes the truth of a run. Fails on a negative time, and leaves what stands before it.
pub fn write_truth(
    ego: &[EgoTruthState],
    objects: &[ObjectTruthState],
    imu_bias: &[ImuBiasTruth],
    descriptors: &[u8],
) -> (file: WrittenFile)
    requires
        descriptors.len() <= u32::MAX,
    ensures
        is_written(
            truth_lanes(),
            descriptors@,
            truth_entries(ego@, objects@, imu_bias@),
            file,
        ),
{
    let lanes = vec![
        lane("fusion.EgoTruthState", "/truth/ego"),
        lane("fusion.ObjectTruthState", "/truth/objects"),
        lane("fusion.ImuBiasTruth", "/truth/imu_bias"),
    ];
    proof {
        reveal_strlit("fusion.EgoTruthState");
        reveal_strlit("fusion.ObjectTruthState");
        reveal_strlit("fusion.ImuBiasTruth");
        reveal_strlit("/truth/ego");
        reveal_strlit("/truth/objects");
        reveal_strlit("/truth/imu_bias");
        assert(lane_views(lanes@) =~= truth_lanes());
    }
    let mut entries: Vec<Entry> = Vec::new();
    append_ego(&mut entries, ego);
    append_object(&mut entries, objects);
    append_bias(&mut entries, imu_bias);
    assert(entry_views(entries@) =~= truth_entries(ego@, objects@, imu_bias@));
    write_container(&lanes, descriptors, &entries)
}

/// The files of what was generated. The truth is only written once the deliveries are.
#[derive(Debug)]
pub struct GeneratedFiles {
    pub measurements: WrittenFile,
    pub truth: Option<WrittenFile>,
}

/// Writes what was generated, the deliveries each with its payload.
pub fn write_generated(
    generated: &GeneratedRun,
    payloads: Vec<Vec<u8>>,
    descriptors: &[u8],
) -> (files: GeneratedFiles)
    requires
        all_timed(generated.measurements@),
        generated.measurements.len() == payloads.len(),
        descriptors.len() <= u32::MAX,
    ensures
        is_written(
            measurement_lanes(),
            descriptors@,
            measurement_entries(generated.measurements@, payloads@),
            files.measurements,
        ),
        files.truth is Some <==> files.measurements.failure is None,
        files.truth matches Some(truth) ==> is_written(
            truth_lanes(),
            descriptors@,
            truth_entries(
                generated.ego_truth_states@,
                generated.object_truth_states@,
                generated.imu_bias_truth@,
            ),
            truth,
        ),
{
    let measurements = write_measurements(
        generated.measurements.as_slice(),
        payloads,
        descriptors,
    );
    let truth = if measurements.failure.is_none() {
        Some(
            write_truth(
                generated.ego_truth_states.as_slice(),
                generated.object_truth_states.as_slice(),
                generated.imu_bias_truth.as_slice(),
                descriptors,
            ),
        )
    } else {
        None
    };
    GeneratedFiles { measurements, truth }
}

/// The entry of an estimate: logged when it is available, published at the time that it is about.
pub open spec fn estimate_entry(
    place: int,
    available_time_ns: i64,
    estimate_time_ns: i64,
    payload: Seq<u8>,
) -> EntryView {
    EntryView {
        lane: 0,
        sequence: place as u32,
        log_time_ns: available_time_ns as int,
        publish_time_ns: estimate_time_ns as int,
        data: payload,
    }
}

/// The lanes of a file of ego estimates.
pub open spec fn estimate_lanes(name: Seq<char>) -> Seq<LaneView> {
    seq![LaneView { schema: "fusion.EgoStateEstimate"@, topic: "/estimate/ego/"@ + name }]
}

/// The entries of a file of ego estimates.
pub open spec fn estimate_entries(
    estimates: Seq<EgoStateEstimate>,
    payloads: Seq<Vec<u8>>,
) -> Seq<EntryView> {
    Seq::new(
        estimates.len(),
        |i: int|
            estimate_entry(
                i,
                estimates[i].available_time_ns,
                estimates[i].estimate_time_ns,
                payloads[i]@,
            ),
    )
}

/// The lanes of a file of tracks.
pub open spec fn track_lanes(name: Seq<char>) -> Seq<LaneView> {
    seq![LaneView { schema: "fusion.ObjectTrackFrame"@, topic: "/track/object/"@ + name }]
}

/// The entries of a file of tracks.
pub open spec fn track_entries(frames: Seq<ObjectTrackFrame>) -> Seq<EntryView> {
    Seq::new(
        frames.len(),
        |i: int|
            estimate_entry(
                i,
                frames[i].available_time_ns,
                frames[i].estimate_time_ns,
                frames[i].content@,
            ),
    )
}

/// The longest name of an estimator or tracker whose topic a container can surely hold.
pub const MAX_ID_LENGTH: usize = 0x3FFF_FF00;

/// Writes the estimates of a filter, each with its payload. Fails on a negative time, and leaves
/// what stands before it.
pub fn write_ego_estimates_file(
    name: &str,
    estimates: &[EgoStateEstimate],
    payloads: Vec<Vec<u8>>,
    descriptors: &[u8],
) -> (file: WrittenFile)
    requires
        estimates.len() == payloads.len(),
        descriptors.len() <= u32::MAX,
        name@.len() <= MAX_ID_LENGTH,
    ensures
        is_written(
            estimate_lanes(name@),
            descriptors@,
            estimate_entries(estimates@, payloads@),
            file,
        ),
{
    let mut topic = "/estimate/ego/".to_owned();
    topic.append(name);
    let lanes = vec![lane("fusion.EgoStateEstimate", topic.as_str())];
    proof {
        reveal_strlit("fusion.EgoStateEstimate");
        reveal_strlit("/estimate/ego/");
        assert(lane_views(lanes@) =~= estimate_lanes(name@));
    }
    let ghost expected = estimate_entries(estimates@, payloads@);
    let ghost bytes = payloads@;
    let mut entries: Vec<Entry> = Vec::new();
    for payload in iter: payloads.into_iter()
        invariant
            iter.seq() == bytes,
            estimates.len() == bytes.len(),
            expected == estimate_entries(estimates@, bytes),
            entries.len() == iter.index(),
            entry_views(entries@) == expected.take(iter.index() as int),
            forall|i: int| 0 <= i < entries.len() ==> (#[trigger] entries@[i]).lane == 0,
    {
        let place: usize = entries.len();
        let entry = Entry {
            lane: 0,
            sequence: #[verifier::truncate] (place as u32),
            log_time_ns: estimates[place].available_time_ns,
            publish_time_ns: estimates[place].estimate_time_ns,
            data: payload,
        };
        assert(entry@ == expected[place as int]);
        entries.push(entry);
        assert(entry_views(entries@) =~= expected.take(place as int + 1));
    }
    assert(expected.take(expected.len() as int) =~= expected);
    write_container(&lanes, descriptors, &entries)
}

/// Writes the estimates of the filter that a run is based on.
pub fn write_ego_estimates(
    estimates: &[EgoStateEstimate],
    payloads: Vec<Vec<u8>>,
    descriptors: &[u8],
) -> (file: WrittenFile)
    requires
        estimates.len() == payloads.len(),
        descriptors.len() <= u32::MAX,
    ensures
        is_written(
            estimate_lanes("ego-baseline"@),
            descriptors@,
            estimate_entries(estimates@, payloads@),
            file,
        ),
{
    proof {
        reveal_strlit("ego-baseline");
    }
    write_ego_estimates_file("ego-baseline", estimates, payloads, descriptors)
}

/// Writes the frames of a tracker. Fails on a negative time, and leaves what stands before it.
pub fn write_tracks_file(name: &str, frames: &[ObjectTrackFrame], descriptors: &[u8]) -> (file:
    WrittenFile)
    requires
        descriptors.len() <= u32::MAX,
        name@.len() <= MAX_ID_LENGTH,
    ensures
        is_written(track_lanes(name@), descriptors@, track_entries(frames@), file),
{
    let mut topic = "/track/object/".to_owned();
    topic.append(name);
    let lanes = vec![lane("fusion.ObjectTrackFrame", topic.as_str())];
    proof {
        reveal_strlit("fusion.ObjectTrackFrame");
        reveal_strlit("/track/object/");
        assert(lane_views(lanes@) =~= track_lanes(name@));
    }
    let ghost expected = track_entries(frames@);
    let mut entries: Vec<Entry> = Vec::new();
    let mut place: usize = 0;
    assert(entry_views(entries@) =~= expected.take(0));
    while place < frames.len()
        invariant
            place <= frames.len(),
            expected == track_entries(frames@),
            entry_views(entries@) == expected.take(place as int),
            forall|i: int| 0 <= i < entries.len() ==> (#[trigger] entries@[i]).lane == 0,
        decreases frames.len() - place,
    {
        let frame = &frames[place];
        let entry = Entry {
            lane: 0,
            sequence: #[verifier::truncate] (place as u32),
            log_time_ns: frame.available_time_ns,
            publish_time_ns: frame.estimate_time_ns,
            data: frame.content.clone(),
        };
        assert(entry@ == expected[place as int]);
        let ghost so_far = entry_views(entries@);
        entries.push(entry);
        assert(entry_views(entries@) =~= so_far.push(entry@));
        assert(entry_views(entries@) =~= expected.take(place as int + 1));
        place = place + 1;
    }
    assert(expected.take(expected.len() as int) =~= expected);
    write_container(&lanes, descriptors, &entries)
}

// Reading.

/// The payload of a delivery, and the sensor that it is from.
#[derive(Debug)]
pub struct MeasurementFrame {
    pub kind: RecordKind,
    pub data: Vec<u8>,
}

/// Why a measurement file is refused.
#[derive(Debug)]
pub enum ReadFailure {
    Container(mcap::McapError),
    OutOfOrder,
    NoSchema,
    UnsupportedSchema { name: String },
}

/// The deliveries of a measurement file up to the first that is refused, and why it is.
#[derive(Debug)]
pub struct MeasurementFile {
    pub frames: Vec<MeasurementFrame>,
    pub failure: Option<ReadFailure>,
}

/// The kind of record that a schema stands for.
pub open spec fn kind_named(name: Seq<char>) -> Option<RecordKind> {
    if name == RecordKind::Imu.spec_schema() {
        Some(RecordKind::Imu)
    } else if name == RecordKind::Gps.spec_schema() {
        Some(RecordKind::Gps)
    } else if name == RecordKind::Camera.spec_schema() {
        Some(RecordKind::Camera)
    } else if name == RecordKind::Lidar.spec_schema() {
        Some(RecordKind::Lidar)
    } else {
        None
    }
}

/// Whether the message at `index` was logged no earlier than the one before it.
pub open spec fn is_in_turn(messages: Seq<StoredView>, index: int) -> bool {
    index > 0 ==> messages[index].log_time >= messages[index - 1].log_time
}

/// Whether the message at `index` is accepted as a delivery.
pub open spec fn is_accepted(messages: Seq<StoredView>, index: int) -> bool {
    &&& is_in_turn(messages, index)
    &&& messages[index].schema matches Some(name) && kind_named(name) is Some
}

/// Whether `frame` says what `message` holds.
pub open spec fn is_frame(message: StoredView, frame: MeasurementFrame) -> bool {
    kind_named(message.schema->0) == Some(frame.kind) && frame.data@ == message.data
}

/// Whether the message at `index` is accepted as the delivery `frame`.
pub open spec fn is_delivery(
    messages: Seq<StoredView>,
    index: int,
    frame: MeasurementFrame,
) -> bool {
    is_accepted(messages, index) && is_frame(messages[index], frame)
}

/// Whether `frames` are the deliveries that the first messages hold.
pub open spec fn are_frames(messages: Seq<StoredView>, frames: Seq<MeasurementFrame>) -> bool {
    &&& frames.len() <= messages.len()
    &&& forall|i: int|
        0 <= i < frames.len() ==> is_delivery(messages, i, #[trigger] frames[i])
}

/// Whether `failure` says why the message at `index` is refused. Its turn is tested first.
pub open spec fn is_refusal(
    messages: Seq<StoredView>,
    index: int,
    failure: ReadFailure,
) -> bool {
    if !is_in_turn(messages, index) {
        failure is OutOfOrder
    } else if messages[index].schema is None {
        failure is NoSchema
    } else {
        failure matches ReadFailure::UnsupportedSchema { name } && Some(name@)
            == messages[index].schema
    }
}

/// Whether `file` is what the messages amount to: all of them, or those before the first that is
/// refused.
pub open spec fn is_measurement_file(messages: Seq<StoredView>, file: MeasurementFile) -> bool {
    &&& are_frames(messages, file.frames@)
    &&& match file.failure {
        None => file.frames.len() == messages.len(),
        Some(failure) => {
            &&& file.frames.len() < messages.len()
            &&& !is_accepted(messages, file.frames.len() as int)
            &&& is_refusal(messages, file.frames.len() as int, failure)
        },
    }
}

fn kind_by_name(name: &String) -> (kind: Option<RecordKind>)
    ensures
        kind == kind_named(name@),
{
    if *name == RecordKind::Imu.schema().to_owned() {
        Some(RecordKind::Imu)
    } else if *name == RecordKind::Gps.schema().to_owned() {
        Some(RecordKind::Gps)
    } else if *name == RecordKind::Camera.schema().to_owned() {
        Some(RecordKind::Camera)
    } else if *name == RecordKind::Lidar.schema().to_owned() {
        Some(RecordKind::Lidar)
    } else {
        None
    }
}

/// Takes the message of a measurement file that follows one logged at `previous`.
fn take_measurement(previous: Option<u64>, message: StoredMessage) -> (taken: Result<
    MeasurementFrame,
    ReadFailure,
>)
    ensures
        match taken {
            Ok(frame) => {
                &&& previous matches Some(time) ==> message.log_time >= time
                &&& message@.schema is Some
                &&& is_frame(message@, frame)
            },
            Err(failure) => if previous is Some && message.log_time < previous->0 {
                failure is OutOfOrder
            } else if message@.schema is None {
                failure is NoSchema
            } else {
                failure matches ReadFailure::UnsupportedSchema { name } && Some(name@)
                    == message@.schema && kind_named(name@) is None
            },
        },
{
    if let Some(time) = previous {
        if message.log_time < time {
            return Err(ReadFailure::OutOfOrder);
        }
    }
    match message.schema {
        None => Err(ReadFailure::NoSchema),
        Some(name) => match kind_by_name(&name) {
            Some(kind) => Ok(MeasurementFrame { kind, data: message.data }),
            None => Err(ReadFailure::UnsupportedSchema { name }),
        },
    }
}

/// Takes the messages of a measurement file in turn.
pub fn take_measurements(messages: Vec<StoredMessage>) -> (file: MeasurementFile)
    ensures
        is_measurement_file(stored_views(messages@), file),
{
    let ghost views = stored_views(messages@);
    let ghost all = messages@;
    let mut frames: Vec<MeasurementFrame> = Vec::new();
    let mut previous: Option<u64> = None;
    for message in iter: messages.into_iter()
        invariant
            iter.seq() == all,
            views == stored_views(all),
            frames.len() == iter.index(),
            are_frames(views, frames@),
            match previous {
                None => frames.len() == 0,
                Some(time) => frames.len() > 0 && time == views[frames.len() - 1].log_time,
            },
    {
        let ghost place = frames.len() as int;
        let log_time = message.log_time;
        assert(message@ == views[place]);
        match take_measurement(previous, message) {
            Ok(frame) => {
                assert(is_delivery(views, place, frame));
                frames.push(frame);
                previous = Some(log_time);
            },
            Err(failure) => {
                return MeasurementFile { frames, failure: Some(failure) };
            },
        }
    }
    MeasurementFile { frames, failure: None }
}

/// Whether `file` is what reading a container with the given items comes to. An error of the
/// container counts only if nothing before it is refused.
pub open spec fn is_measurement_reading(
    items: Seq<Option<MessageView>>,
    file: MeasurementFile,
) -> bool {
    match file.failure {
        Some(ReadFailure::Container(_)) => {
            &&& !is_intact(items)
            &&& are_frames(readable(items), file.frames@)
            &&& file.frames.len() == readable(items).len()
        },
        None => is_intact(items) && is_measurement_file(readable(items), file),
        Some(_) => is_measurement_file(readable(items), file),
    }
}

/// Reads a measurement file.
pub fn read_measurements(bytes: &[u8]) -> (file: MeasurementFile)
    requires
        reader_answers(bytes@),
    ensures
        is_measurement_reading(container_items(bytes@), file),
{
    let contents = read_container(bytes);
    let file = take_measurements(contents.messages);
    match (file.failure, contents.failure) {
        (None, Some(error)) => MeasurementFile {
            frames: file.frames,
            failure: Some(ReadFailure::Container(error)),
        },
        (failure, _) => MeasurementFile { frames: file.frames, failure },
    }
}

impl ReadFailure {
    /// The failure in words, where it is not the `mcap` crate's.
    pub fn message(&self) -> (text: Option<String>)
        ensures
            match self {
                ReadFailure::Container(_) => text is None,
                ReadFailure::OutOfOrder => text matches Some(text) && text@
                    == "measurement MCAP is not in arrival order"@,
                ReadFailure::NoSchema => text matches Some(text) && text@
                    == "measurement channel has no schema"@,
                ReadFailure::UnsupportedSchema { name } => text matches Some(text) && text@
                    == "unsupported measurement schema "@ + name@,
            },
    {
        match self {
            ReadFailure::Container(_) => None,
            ReadFailure::OutOfOrder => Some("measurement MCAP is not in arrival order".to_owned()),
            ReadFailure::NoSchema => Some("measurement channel has no schema".to_owned()),
            ReadFailure::UnsupportedSchema { name } => {
                let mut text = "unsupported measurement schema ".to_owned();
                text.append(name.as_str());
                Some(text)
            },
        }
    }
}

/// The payloads of one schema in a file up to the first error, and that error.
#[derive(Debug)]
pub struct SchemaFile {
    pub payloads: Vec<Vec<u8>>,
    pub failure: Option<mcap::McapError>,
}

/// The payloads of the messages with the given schema.
pub open spec fn payloads_of(messages: Seq<StoredView>, schema: Seq<char>) -> Seq<Seq<u8>>
    decreases messages.len(),
{
    if messages.len() == 0 {
        Seq::empty()
    } else if messages.last().schema == Some(schema) {
        payloads_of(messages.drop_last(), schema).push(messages.last().data)
    } else {
        payloads_of(messages.drop_last(), schema)
    }
}

/// The views of a list.
pub open spec fn payload_views(payloads: Seq<Vec<u8>>) -> Seq<Seq<u8>> {
    payloads.map_values(|payload: Vec<u8>| payload@)
}

/// Takes the payloads of the messages with the given schema.
pub fn take_payloads(messages: Vec<StoredMessage>, schema: &str) -> (payloads: Vec<Vec<u8>>)
    ensures
        payload_views(payloads@) == payloads_of(stored_views(messages@), schema@),
{
    let ghost all = messages@;
    let ghost views = stored_views(messages@);
    let expected: String = schema.to_owned();
    let mut payloads: Vec<Vec<u8>> = Vec::new();
    assert(views.take(0) =~= Seq::empty());
    assert(payload_views(payloads@) =~= Seq::empty());
    for message in iter: messages.into_iter()
        invariant
            iter.seq() == all,
            views == stored_views(all),
            expected@ == schema@,
            payload_views(payloads@) == payloads_of(views.take(iter.index() as int), schema@),
    {
        proof {
            let taken = views.take(iter.index() as int + 1);
            assert(taken.drop_last() =~= views.take(iter.index() as int));
            assert(taken.last() == message@);
        }
        let matching = match &message.schema {
            Some(name) => *name == expected,
            None => false,
        };
        if matching {
            let ghost so_far = payload_views(payloads@);
            let data = message.data;
            payloads.push(data);
            assert(payload_views(payloads@) =~= so_far.push(data@));
        }
    }
    assert(views.take(views.len() as int) =~= views);
    payloads
}

/// Whether `file` is what reading the payloads of one schema comes to.
pub open spec fn is_schema_reading(
    items: Seq<Option<MessageView>>,
    schema: Seq<char>,
    file: SchemaFile,
) -> bool {
    &&& payload_views(file.payloads@) == payloads_of(readable(items), schema)
    &&& file.failure is None <==> is_intact(items)
}

/// Reads the payloads of one schema.
pub fn read_schema(bytes: &[u8], expected: &str) -> (file: SchemaFile)
    requires
        reader_answers(bytes@),
    ensures
        is_schema_reading(container_items(bytes@), expected@, file),
{
    let contents = read_container(bytes);
    SchemaFile {
        payloads: take_payloads(contents.messages, expected),
        failure: contents.failure,
    }
}

/// Reads the true states of the vehicle.
pub fn read_ego_truth(bytes: &[u8]) -> (file: SchemaFile)
    requires
        reader_answers(bytes@),
    ensures
        is_schema_reading(container_items(bytes@), "fusion.EgoTruthState"@, file),
{
    read_schema(bytes, "fusion.EgoTruthState")
}

/// Reads the true states of the objects.
pub fn read_object_truth(bytes: &[u8]) -> (file: SchemaFile)
    requires
        reader_answers(bytes@),
    ensures
        is_schema_reading(container_items(bytes@), "fusion.ObjectTruthState"@, file),
{
    read_schema(bytes, "fusion.ObjectTruthState")
}

/// Reads the true biases of the IMU.
pub fn read_imu_bias_truth(bytes: &[u8]) -> (file: SchemaFile)
    requires
        reader_answers(bytes@),
    ensures
        is_schema_reading(container_items(bytes@), "fusion.ImuBiasTruth"@, file),
{
    read_schema(bytes, "fusion.ImuBiasTruth")
}

/// Reads the estimates of a filter.
pub fn read_ego_estimates(bytes: &[u8]) -> (file: SchemaFile)
    requires
        reader_answers(bytes@),
    ensures
        is_schema_reading(container_items(bytes@), "fusion.EgoStateEstimate"@, file),
{
    read_schema(bytes, "fusion.EgoStateEstimate")
}

/// Reads the frames of a tracker.
pub fn read_tracks(bytes: &[u8]) -> (file: SchemaFile)
    requires
        reader_answers(bytes@),
    ensures
        is_schema_reading(container_items(bytes@), "fusion.ObjectTrackFrame"@, file),
{
    read_schema(bytes, "fusion.ObjectTrackFrame")
}

} // verus!
