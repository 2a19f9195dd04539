//! MCAP containers in memory, by way of the `mcap` crate.
//!
//! A container holds messages in the order in which they were written. Each belongs to a channel,
//! and a channel may have a schema. What the bytes of a container look like is the crate's matter;
//! the contracts here speak of the messages that a reader finds in them.
use vstd::prelude::*;

verus! {

/// What a schema says.
pub struct SchemaView {
    pub name: Seq<char>,
    pub encoding: Seq<char>,
    pub data: Seq<u8>,
}

/// What a channel says.
pub struct ChannelView {
    pub topic: Seq<char>,
    pub message_encoding: Seq<char>,
    pub schema: Option<SchemaView>,
}

/// What a message says.
pub struct MessageView {
    pub channel: ChannelView,
    pub sequence: u32,
    pub log_time: u64,
    pub publish_time: u64,
    pub data: Seq<u8>,
}

/// The part of a message that readers here use.
pub struct StoredView {
    pub schema: Option<Seq<char>>,
    pub log_time: u64,
    pub data: Seq<u8>,
}

impl MessageView {
    pub open spec fn stored(self) -> StoredView {
        StoredView {
            schema: match self.channel.schema {
                Some(schema) => Some(schema.name),
                None => None,
            },
            log_time: self.log_time,
            data: self.data,
        }
    }
}

/// A message as it was read.
#[derive(Debug)]
pub struct StoredMessage {
    pub schema: Option<String>,
    pub log_time: u64,
    pub data: Vec<u8>,
}

impl View for StoredMessage {
    type V = StoredView;

    open spec fn view(&self) -> StoredView {
        StoredView {
            schema: match self.schema {
                Some(name) => Some(name@),
                None => None,
            },
            log_time: self.log_time,
            data: self.data@,
        }
    }
}

/// An error of the `mcap` crate.
#[verifier::external_type_specification]
#[verifier::external_body]
pub struct ExMcapError(mcap::McapError);

/// A message of the `mcap` crate, which its iterator hands out.
#[verifier::external_type_specification]
#[verifier::external_body]
pub struct ExMessage<'a>(mcap::Message<'a>);

/// The `mcap` crate's iterator over the messages of a container.
#[verifier::external_type_specification]
#[verifier::external_body]
pub struct ExMessageStream<'a>(mcap::MessageStream<'a>);

// Reading.

/// What `mcap::MessageStream` finds in the bytes of a container, one item after the other. An
/// item that is `None` stands for an error.
pub uninterp spec fn container_items(bytes: Seq<u8>) -> Seq<Option<MessageView>>;

/// The items that a stream has yet to hand out.
pub uninterp spec fn stream_items(stream: mcap::MessageStream) -> Seq<Option<MessageView>>;

/// Whether `mcap::MessageStream` answers on these bytes to the end: every call of `next` returns,
/// in every build. It answers on what a writer has finished, and on most other bytes with items
/// and an error. On a damaged attachment, chunk or record length it may panic instead, and some
/// such damage shows only once a chunk is decompressed.
pub uninterp spec fn reader_answers(bytes: Seq<u8>) -> bool;

/// Whether a stream answers to the end.
pub uninterp spec fn stream_answers(stream: mcap::MessageStream) -> bool;

/// `mcap::MessageStream::new` starts at the first item of the container. It looks at no byte yet
/// and does not fail. The stream answers if the reader answers on the bytes.
#[verifier::external_body]
fn open_stream<'a>(bytes: &'a [u8]) -> (opened: Result<mcap::MessageStream<'a>, mcap::McapError>)
    ensures
        opened is Ok,
        stream_items(opened->Ok_0) == container_items(bytes@),
        reader_answers(bytes@) ==> stream_answers(opened->Ok_0),
{
    mcap::MessageStream::new(bytes)
}

/// `next` of `mcap::MessageStream` hands out the next item, of a stream that answers.
#[verifier::external_body]
fn next_item<'a>(stream: &mut mcap::MessageStream<'a>) -> (item: Option<
    Result<StoredMessage, mcap::McapError>,
>)
    requires
        stream_answers(*old(stream)),
    ensures
        match item {
            None => stream_items(*old(stream)).len() == 0,
            Some(Ok(message)) => stream_items(*old(stream)).len() > 0 && (stream_items(
                *old(stream),
            )[0] matches Some(view) && message@ == view.stored()),
            Some(Err(_)) => stream_items(*old(stream)).len() > 0 && stream_items(*old(stream))[0]
                is None,
        },
        item is Some ==> stream_items(*final(stream)) == stream_items(*old(stream)).drop_first(),
        stream_answers(*final(stream)),
{
    stream.next().map(
        |item|
            item.map(
                |message| StoredMessage {
                    schema: message.channel.schema.as_ref().map(|schema| schema.name.clone()),
                    log_time: message.log_time,
                    data: message.data.into_owned(),
                },
            ),
    )
}

/// The messages of a container up to the first error, and that error.
#[derive(Debug)]
pub struct Contents {
    pub messages: Vec<StoredMessage>,
    pub failure: Option<mcap::McapError>,
}

/// The messages among `items` up to the first error.
pub open spec fn readable(items: Seq<Option<MessageView>>) -> Seq<StoredView>
    decreases items.len(),
{
    if items.len() == 0 || items[0] is None {
        Seq::empty()
    } else {
        seq![items[0]->0.stored()] + readable(items.drop_first())
    }
}

/// Whether there is no error among `items`.
pub open spec fn is_intact(items: Seq<Option<MessageView>>) -> bool {
    forall|i: int| 0 <= i < items.len() ==> (#[trigger] items[i]) is Some
}

/// The views of a list.
pub open spec fn stored_views(messages: Seq<StoredMessage>) -> Seq<StoredView> {
    messages.map_values(|message: StoredMessage| message@)
}

/// Reads a container up to the first error.
pub fn read_container(bytes: &[u8]) -> (contents: Contents)
    requires
        reader_answers(bytes@),
    ensures
        stored_views(contents.messages@) == readable(container_items(bytes@)),
        contents.failure is None <==> is_intact(container_items(bytes@)),
{
    let ghost items = container_items(bytes@);
    let mut messages: Vec<StoredMessage> = Vec::new();
    let mut stream = match open_stream(bytes) {
        Ok(stream) => stream,
        Err(error) => {
            return Contents { messages, failure: Some(error) };
        },
    };
    assert(stored_views(messages@) + readable(items) =~= readable(items));
    loop
        invariant
            items == container_items(bytes@),
            stream_answers(stream),
            stored_views(messages@) + readable(stream_items(stream)) == readable(items),
            is_intact(stream_items(stream)) == is_intact(items),
        decreases stream_items(stream).len(),
    {
        let ghost rest = stream_items(stream);
        let ghost so_far = stored_views(messages@);
        match next_item(&mut stream) {
            None => {
                assert(so_far + readable(rest) =~= so_far);
                return Contents { messages, failure: None };
            },
            Some(Ok(message)) => {
                messages.push(message);
                proof {
                    assert(stored_views(messages@) =~= so_far.push(message@));
                    assert(stored_views(messages@) + readable(rest.drop_first()) =~= so_far
                        + readable(rest));
                    assert forall|i: int| 0 <= i < rest.len() implies (#[trigger] rest[i] is Some
                        <==> (i == 0 || rest.drop_first()[i - 1] is Some)) by {}
                    if is_intact(rest.drop_first()) {
                        assert forall|i: int| 0 <= i < rest.len() implies (#[trigger] rest[i])
                            is Some by {
                            if i > 0 {
                                assert(rest.drop_first()[i - 1] is Some);
                            }
                        }
                    }
                }
            },
            Some(Err(error)) => {
                assert(so_far + readable(rest) =~= so_far);
                assert(rest[0] is None);
                return Contents { messages, failure: Some(error) };
            },
        }
    }
}

/// A reader finds the messages of an intact container as they are.
pub proof fn lemma_readable_messages(messages: Seq<MessageView>)
    ensures
        readable(messages.map_values(|message: MessageView| Some(message)))
            == messages.map_values(|message: MessageView| message.stored()),
        is_intact(messages.map_values(|message: MessageView| Some(message))),
    decreases messages.len(),
{
    let items = messages.map_values(|message: MessageView| Some(message));
    let stored = messages.map_values(|message: MessageView| message.stored());
    if messages.len() > 0 {
        let rest = messages.drop_first();
        lemma_readable_messages(rest);
        assert(items.drop_first() =~= rest.map_values(|message: MessageView| Some(message)));
        assert(stored =~= seq![messages[0].stored()] + rest.map_values(
            |message: MessageView| message.stored(),
        ));
    } else {
        assert(stored =~= Seq::empty());
    }
}

// Writing.

/// The `mcap` crate's writer over a buffer in memory.
#[verifier::external_body]
pub struct ContainerWriter {
    inner: mcap::Writer<std::io::Cursor<Vec<u8>>>,
}

/// The messages that were written so far.
pub uninterp spec fn written(writer: ContainerWriter) -> Seq<MessageView>;

/// The schemas that were added so far, by number.
pub uninterp spec fn known_schemas(writer: ContainerWriter) -> Map<u16, SchemaView>;

/// The channels that were added so far, by number.
pub uninterp spec fn known_channels(writer: ContainerWriter) -> Map<u16, ChannelView>;

/// Whether the container can be written to: it is not finished, and no call on its writer has
/// failed.
pub uninterp spec fn is_open(writer: ContainerWriter) -> bool;

/// Whether the container is complete.
pub uninterp spec fn is_finished(writer: ContainerWriter) -> bool;

/// The longest name or topic, in characters, whose length a container can surely hold.
pub const MAX_NAME_LENGTH: usize = 0x3FFF_FFFF;

/// The largest number of schemas or channels that is ever added to one container here.
pub const MAX_CHANNELS: usize = 1000;

pub open spec fn no_schemas() -> Map<u16, SchemaView> {
    Map::empty()
}

pub open spec fn no_channels() -> Map<u16, ChannelView> {
    Map::empty()
}

/// `mcap::Writer::new` starts an empty container.
#[verifier::external_body]
fn start_container() -> (started: Result<ContainerWriter, mcap::McapError>)
    ensures
        started is Ok ==> written(started->Ok_0) == Seq::<MessageView>::empty(),
        started is Ok ==> known_schemas(started->Ok_0) == no_schemas(),
        started is Ok ==> known_channels(started->Ok_0) == no_channels(),
        started is Ok ==> is_open(started->Ok_0),
{
    Ok(ContainerWriter { inner: mcap::Writer::new(std::io::Cursor::new(Vec::new()))? })
}

/// `mcap::Writer::add_schema` answers with the number of the schema, which is new or that of one
/// with the same content, and changes nothing else. The length of a name or of the data is stored
/// in 32 bits.
#[verifier::external_body]
fn add_schema(writer: &mut ContainerWriter, name: &str, encoding: &str, data: &[u8]) -> (added:
    Result<u16, mcap::McapError>)
    requires
        is_open(*old(writer)),
        known_schemas(*old(writer)).len() < MAX_CHANNELS,
        name@.len() <= MAX_NAME_LENGTH,
        encoding@.len() <= MAX_NAME_LENGTH,
        data@.len() <= u32::MAX,
    ensures
        added matches Ok(id) ==> id != 0 && known_schemas(*final(writer)) == known_schemas(
            *old(writer),
        ).insert(id, (SchemaView { name: name@, encoding: encoding@, data: data@ })) && (
        known_schemas(*old(writer)).contains_key(id) ==> known_schemas(*old(writer))[id]
            == known_schemas(*final(writer))[id]),
        added is Ok ==> written(*final(writer)) == written(*old(writer)) && known_channels(
            *final(writer),
        ) == known_channels(*old(writer)) && is_open(*final(writer)),
{
    writer.inner.add_schema(name, encoding, data)
}

/// `mcap::Writer::add_channel`, without metadata, answers with the number of the channel, which is
/// new or that of one with the same content, and changes nothing else. The length of a topic is
/// stored in 32 bits.
#[verifier::external_body]
fn add_channel(
    writer: &mut ContainerWriter,
    schema_id: u16,
    topic: &str,
    message_encoding: &str,
) -> (added: Result<u16, mcap::McapError>)
    requires
        is_open(*old(writer)),
        schema_id != 0,
        known_schemas(*old(writer)).contains_key(schema_id),
        known_channels(*old(writer)).len() < MAX_CHANNELS,
        topic@.len() <= MAX_NAME_LENGTH,
        message_encoding@.len() <= MAX_NAME_LENGTH,
    ensures
        added matches Ok(id) ==> known_channels(*final(writer)) == known_channels(
            *old(writer),
        ).insert(
            id,
            (ChannelView {
                topic: topic@,
                message_encoding: message_encoding@,
                schema: Some(known_schemas(*old(writer))[schema_id]),
            }),
        ) && (known_channels(*old(writer)).contains_key(id) ==> known_channels(*old(writer))[id]
            == known_channels(*final(writer))[id]),
        added is Ok ==> written(*final(writer)) == written(*old(writer)) && known_schemas(
            *final(writer),
        ) == known_schemas(*old(writer)) && is_open(*final(writer)),
{
    let metadata = std::collections::BTreeMap::new();
    writer.inner.add_channel(schema_id, topic, message_encoding, &metadata)
}

/// `mcap::Writer::write_to_known_channel` appends a message and changes nothing else.
#[verifier::external_body]
fn write_to_known_channel(
    writer: &mut ContainerWriter,
    channel_id: u16,
    sequence: u32,
    log_time: u64,
    publish_time: u64,
    data: &[u8],
) -> (wrote: Result<(), mcap::McapError>)
    requires
        is_open(*old(writer)),
        known_channels(*old(writer)).contains_key(channel_id),
    ensures
        wrote is Ok ==> written(*final(writer)) == written(*old(writer)).push(
            (MessageView {
                channel: known_channels(*old(writer))[channel_id],
                sequence,
                log_time,
                publish_time,
                data: data@,
            }),
        ),
        wrote is Ok ==> known_schemas(*final(writer)) == known_schemas(*old(writer))
            && known_channels(*final(writer)) == known_channels(*old(writer)) && is_open(
            *final(writer),
        ),
{
    let header = mcap::records::MessageHeader { channel_id, sequence, log_time, publish_time };
    writer.inner.write_to_known_channel(&header, data)
}

/// `mcap::Writer::finish` completes an open container and changes none of its messages. It can be
/// called after a failed call too, as the writer does itself when it is dropped; nothing is stated
/// of what that makes.
#[verifier::external_body]
fn finish(writer: &mut ContainerWriter) -> (finished: Result<(), mcap::McapError>)
    ensures
        finished is Ok && is_open(*old(writer)) ==> is_finished(*final(writer)) && written(
            *final(writer),
        ) == written(*old(writer)),
{
    writer.inner.finish().map(|_| ())
}

/// `mcap::Writer::into_inner` hands out the bytes. Of a complete container, `mcap::MessageStream`
/// answers to the end, and reads all messages in the order in which they were written. Of another
/// one it hands out what has been written of it, of which nothing is stated: how the messages are
/// compressed depends on the machine.
#[verifier::external_body]
fn into_bytes(writer: ContainerWriter) -> (bytes: Vec<u8>)
    ensures
        is_finished(writer) ==> container_items(bytes@) == written(writer).map_values(
            |message: MessageView| Some(message),
        ),
        is_finished(writer) ==> reader_answers(bytes@),
{
    writer.inner.into_inner().into_inner()
}

/// A channel with its schema.
#[derive(Debug)]
pub struct Lane {
    pub schema: String,
    pub topic: String,
}

/// What a lane says.
pub struct LaneView {
    pub schema: Seq<char>,
    pub topic: Seq<char>,
}

impl View for Lane {
    type V = LaneView;

    open spec fn view(&self) -> LaneView {
        LaneView { schema: self.schema@, topic: self.topic@ }
    }
}

/// A message to be written, in the lane with the given place.
#[derive(Debug)]
pub struct Entry {
    pub lane: usize,
    pub sequence: u32,
    pub log_time_ns: i64,
    pub publish_time_ns: i64,
    pub data: Vec<u8>,
}

/// What an entry says.
pub struct EntryView {
    pub lane: int,
    pub sequence: u32,
    pub log_time_ns: int,
    pub publish_time_ns: int,
    pub data: Seq<u8>,
}

impl View for Entry {
    type V = EntryView;

    open spec fn view(&self) -> EntryView {
        EntryView {
            lane: self.lane as int,
            sequence: self.sequence,
            log_time_ns: self.log_time_ns as int,
            publish_time_ns: self.publish_time_ns as int,
            data: self.data@,
        }
    }
}

impl EntryView {
    /// Whether a container can hold the entry's times.
    pub open spec fn has_times(self) -> bool {
        self.log_time_ns >= 0 && self.publish_time_ns >= 0
    }
}

/// Why a container was not written to its end.
#[derive(Debug)]
pub enum WriteFailure {
    NegativeTime,
    Container(mcap::McapError),
}

/// A container, as far as it was written, and why it ends there.
#[derive(Debug)]
pub struct WrittenFile {
    /// What was written, and is to be stored, whether or not writing failed.
    pub bytes: Vec<u8>,
    /// Whether the bytes are a complete container.
    pub is_whole: bool,
    pub failure: Option<WriteFailure>,
}

impl WriteFailure {
    /// The failure in words, where it is not the `mcap` crate's.
    pub fn message(&self) -> (text: Option<String>)
        ensures
            match self {
                WriteFailure::NegativeTime => text matches Some(text) && text@
                    == "MCAP times must be nonnegative"@,
                WriteFailure::Container(_) => text is None,
            },
    {
        match self {
            WriteFailure::NegativeTime => Some("MCAP times must be nonnegative".to_owned()),
            WriteFailure::Container(_) => None,
        }
    }
}

/// The encoding of schemas and of messages.
pub open spec fn protobuf() -> Seq<char> {
    "protobuf"@
}

/// The channel of a lane.
pub open spec fn channel_of(lane: LaneView, descriptors: Seq<u8>) -> ChannelView {
    ChannelView {
        topic: lane.topic,
        message_encoding: protobuf(),
        schema: Some(
            SchemaView { name: lane.schema, encoding: protobuf(), data: descriptors },
        ),
    }
}

/// The message that an entry becomes.
pub open spec fn message_of(
    lanes: Seq<LaneView>,
    descriptors: Seq<u8>,
    entry: EntryView,
) -> MessageView {
    MessageView {
        channel: channel_of(lanes[entry.lane], descriptors),
        sequence: entry.sequence,
        log_time: entry.log_time_ns as u64,
        publish_time: entry.publish_time_ns as u64,
        data: entry.data,
    }
}

/// The messages that entries become.
pub open spec fn messages_of(
    lanes: Seq<LaneView>,
    descriptors: Seq<u8>,
    entries: Seq<EntryView>,
) -> Seq<MessageView> {
    entries.map_values(|entry: EntryView| message_of(lanes, descriptors, entry))
}

/// Whether `bytes` is a container of exactly the messages that the entries become, and can be read.
pub open spec fn holds(
    lanes: Seq<LaneView>,
    descriptors: Seq<u8>,
    entries: Seq<EntryView>,
    bytes: Seq<u8>,
) -> bool {
    &&& reader_answers(bytes)
    &&& container_items(bytes) == messages_of(lanes, descriptors, entries).map_values(
        |message: MessageView| Some(message),
    )
}

/// Whether the entry at `index` is the first whose times a container cannot hold.
pub open spec fn fails_first(entries: Seq<EntryView>, index: int) -> bool {
    &&& 0 <= index < entries.len()
    &&& !entries[index].has_times()
    &&& forall|i: int| 0 <= i < index ==> (#[trigger] entries[i]).has_times()
}

/// Whether `file` is what writing the entries comes to: all of them, or those before the first
/// with a negative time. The `mcap` crate may fail on its own account. The bytes are then what its
/// writer leaves when it is given up, which need not be a container.
pub open spec fn is_written(
    lanes: Seq<LaneView>,
    descriptors: Seq<u8>,
    entries: Seq<EntryView>,
    file: WrittenFile,
) -> bool {
    match file.failure {
        None => {
            &&& forall|i: int| 0 <= i < entries.len() ==> (#[trigger] entries[i]).has_times()
            &&& file.is_whole
            &&& holds(lanes, descriptors, entries, file.bytes@)
        },
        Some(WriteFailure::NegativeTime) => exists|index: int| #[trigger]
            fails_first(entries, index) && (file.is_whole ==> holds(
                lanes,
                descriptors,
                entries.take(index),
                file.bytes@,
            )),
        Some(WriteFailure::Container(_)) => !file.is_whole,
    }
}

/// The views of a list.
pub open spec fn lane_views(lanes: Seq<Lane>) -> Seq<LaneView> {
    lanes.map_values(|lane: Lane| lane@)
}

/// The views of a list.
pub open spec fn entry_views(entries: Seq<Entry>) -> Seq<EntryView> {
    entries.map_values(|entry: Entry| entry@)
}

/// Whether lanes can be declared in a container.
pub open spec fn lanes_fit(lanes: Seq<LaneView>, descriptors: Seq<u8>) -> bool {
    &&& lanes.len() < MAX_CHANNELS
    &&& descriptors.len() <= u32::MAX
    &&& forall|i: int|
        0 <= i < lanes.len() ==> (#[trigger] lanes[i]).schema.len() <= MAX_NAME_LENGTH
            && lanes[i].topic.len() <= MAX_NAME_LENGTH
}

/// Whether a writer knows the lanes by the given numbers.
spec fn knows_lanes(
    writer: ContainerWriter,
    lanes: Seq<LaneView>,
    descriptors: Seq<u8>,
    channels: Seq<u16>,
) -> bool {
    &&& channels.len() <= lanes.len()
    &&& forall|i: int|
        0 <= i < channels.len() ==> known_channels(writer).contains_key(#[trigger] channels[i])
            && known_channels(writer)[channels[i]] == channel_of(lanes[i], descriptors)
}

/// Whether a writer knows no channels but those with the given numbers.
spec fn knows_no_more(writer: ContainerWriter, channels: Seq<u16>) -> bool {
    forall|id: u16| #[trigger]
        known_channels(writer).contains_key(id) ==> channels.contains(id)
}

/// Declares the lanes in a new container, and nothing else. Without lanes there is nothing to
/// declare, and that succeeds; for any lane the `mcap` crate may fail.
fn declare_lanes(writer: &mut ContainerWriter, lanes: &Vec<Lane>, descriptors: &[u8]) -> (declared:
    Result<Vec<u16>, mcap::McapError>)
    requires
        lanes_fit(lane_views(lanes@), descriptors@),
        written(*old(writer)) == Seq::<MessageView>::empty(),
        known_schemas(*old(writer)) == no_schemas(),
        known_channels(*old(writer)) == no_channels(),
        is_open(*old(writer)),
    ensures
        declared matches Ok(channels) ==> {
            &&& channels.len() == lanes.len()
            &&& knows_lanes(*final(writer), lane_views(lanes@), descriptors@, channels@)
            &&& knows_no_more(*final(writer), channels@)
            &&& written(*final(writer)) == Seq::<MessageView>::empty()
            &&& is_open(*final(writer))
        },
        lanes.len() == 0 ==> declared is Ok && *final(writer) == *old(writer),
{
    let ghost start = *writer;
    let ghost views = lane_views(lanes@);
    let mut channels: Vec<u16> = Vec::new();
    let mut index: usize = 0;
    proof {
        reveal_strlit("protobuf");
    }
    while index < lanes.len()
        invariant
            index <= lanes.len(),
            views == lane_views(lanes@),
            lanes_fit(views, descriptors@),
            "protobuf"@.len() == 8,
            channels.len() == index,
            written(*writer) == Seq::<MessageView>::empty(),
            is_open(*writer),
            known_schemas(*writer).dom().finite(),
            known_channels(*writer).dom().finite(),
            known_schemas(*writer).len() <= index,
            known_channels(*writer).len() <= index,
            knows_lanes(*writer, views, descriptors@, channels@),
            knows_no_more(*writer, channels@),
            index == 0 ==> *writer == start,
        decreases lanes.len() - index,
    {
        let lane = &lanes[index];
        assert(views[index as int] == lane@);
        let ghost before = known_channels(*writer);
        let schema = add_schema(writer, lane.schema.as_str(), "protobuf", descriptors)?;
        let channel = add_channel(writer, schema, lane.topic.as_str(), "protobuf")?;
        proof {
            assert(known_channels(*writer)[channel] == channel_of(
                views[index as int],
                descriptors@,
            ));
            assert forall|i: int| 0 <= i < index implies known_channels(*writer).contains_key(
                #[trigger] channels@[i],
            ) && known_channels(*writer)[channels@[i]] == channel_of(views[i], descriptors@) by {
                assert(before.contains_key(channels@[i]));
            }
        }
        let ghost earlier = channels@;
        channels.push(channel);
        proof {
            assert forall|id: u16| #[trigger] known_channels(*writer).contains_key(id) implies
                channels@.contains(id) by {
                if id == channel {
                    assert(channels@[index as int] == id);
                } else {
                    assert(before.contains_key(id));
                    let i = choose|i: int| 0 <= i < earlier.len() && earlier[i] == id;
                    assert(channels@[i] == id);
                }
            }
        }
        index = index + 1;
    }
    Ok(channels)
}

/// Writes the entries up to the first that cannot be written.
fn write_entries(
    writer: &mut ContainerWriter,
    channels: &Vec<u16>,
    entries: &Vec<Entry>,
    lanes: &Vec<Lane>,
    descriptors: &[u8],
) -> (outcome: Result<(), WriteFailure>)
    requires
        channels.len() == lanes.len(),
        knows_lanes(*old(writer), lane_views(lanes@), descriptors@, channels@),
        written(*old(writer)) == Seq::<MessageView>::empty(),
        is_open(*old(writer)),
        forall|i: int| 0 <= i < entries.len() ==> (#[trigger] entries@[i]).lane < lanes.len(),
    ensures
        ({
            let views = lane_views(lanes@);
            let all = entry_views(entries@);
            match outcome {
                Ok(()) => {
                    &&& forall|i: int| 0 <= i < all.len() ==> (#[trigger] all[i]).has_times()
                    &&& written(*final(writer)) == messages_of(views, descriptors@, all)
                    &&& is_open(*final(writer))
                },
                Err(WriteFailure::NegativeTime) => exists|index: int| #[trigger]
                    fails_first(all, index) && written(*final(writer)) == messages_of(
                        views,
                        descriptors@,
                        all.take(index),
                    ) && is_open(*final(writer)),
                Err(WriteFailure::Container(_)) => true,
            }
        }),
{
    let ghost views = lane_views(lanes@);
    let ghost all = entry_views(entries@);
    let mut index: usize = 0;
    assert(written(*writer) =~= messages_of(views, descriptors@, all.take(0)));
    while index < entries.len()
        invariant
            index <= entries.len(),
            channels.len() == lanes.len(),
            views == lane_views(lanes@),
            all == entry_views(entries@),
            knows_lanes(*writer, views, descriptors@, channels@),
            is_open(*writer),
            written(*writer) == messages_of(views, descriptors@, all.take(index as int)),
            forall|i: int| 0 <= i < index ==> (#[trigger] all[i]).has_times(),
            forall|i: int| 0 <= i < entries.len() ==> (#[trigger] entries@[i]).lane < lanes.len(),
        decreases entries.len() - index,
    {
        let entry = &entries[index];
        assert(all[index as int] == entry@);
        if entry.log_time_ns < 0 || entry.publish_time_ns < 0 {
            assert(fails_first(all, index as int));
            return Err(WriteFailure::NegativeTime);
        }
        let wrote = write_to_known_channel(
            writer,
            channels[entry.lane],
            entry.sequence,
            entry.log_time_ns as u64,
            entry.publish_time_ns as u64,
            entry.data.as_slice(),
        );
        if let Err(error) = wrote {
            return Err(WriteFailure::Container(error));
        }
        assert(written(*writer) =~= messages_of(views, descriptors@, all.take(index as int + 1)))
            by {
            assert(all.take(index as int + 1) =~= all.take(index as int).push(entry@));
        }
        index = index + 1;
    }
    assert(all.take(all.len() as int) =~= all);
    Ok(())
}

/// Writes a container. An entry with a negative time ends it there. Where the `mcap` crate fails,
/// its writer is given up: it completes what it can, and the bytes are what it has written.
pub fn write_container(lanes: &Vec<Lane>, descriptors: &[u8], entries: &Vec<Entry>) -> (file:
    WrittenFile)
    requires
        lanes_fit(lane_views(lanes@), descriptors@),
        forall|i: int| 0 <= i < entries.len() ==> (#[trigger] entries@[i]).lane < lanes.len(),
    ensures
        is_written(lane_views(lanes@), descriptors@, entry_views(entries@), file),
{
    let mut writer = match start_container() {
        Ok(writer) => writer,
        Err(error) => {
            return WrittenFile {
                bytes: Vec::new(),
                is_whole: false,
                failure: Some(WriteFailure::Container(error)),
            };
        },
    };
    let outcome = match declare_lanes(&mut writer, lanes, descriptors) {
        Ok(channels) => write_entries(&mut writer, &channels, entries, lanes, descriptors),
        Err(error) => Err(WriteFailure::Container(error)),
    };
    let finished = finish(&mut writer);
    let is_whole = finished.is_ok() && !matches!(outcome, Err(WriteFailure::Container(_)));
    let failure = match (outcome, finished) {
        (Err(failure), _) => Some(failure),
        (Ok(()), Err(error)) => Some(WriteFailure::Container(error)),
        (Ok(()), Ok(())) => None,
    };
    WrittenFile { bytes: into_bytes(writer), is_whole, failure }
}

} // verus!
