//! Wire format of the multiplexer.
//!
//! Every frame is one tag byte, the channel identifier as eight
//! little-endian bytes, and (for data frames only) the payload.
use vstd::bytes::{spec_u64_from_le_bytes, spec_u64_to_le_bytes, u64_from_le_bytes, u64_to_le_bytes};
use vstd::prelude::*;

verus! {

/// The contents of each buffer of a sequence.
pub open spec fn byte_views(s: Seq<Vec<u8>>) -> Seq<Seq<u8>> {
    s.map_values(|v: Vec<u8>| v@)
}

/// Tag byte of a data frame.
pub const TAG_DATA: u8 = 0;

/// Tag byte of a control frame that redeems a sub-channel token.
pub const TAG_CONNECT: u8 = 1;

/// Tag byte of a control frame that closes a channel.
pub const TAG_CLOSE: u8 = 2;

/// Length of the frame header: the tag byte and the channel identifier.
pub const HEADER_LEN: usize = 9;

/// One unit of wire traffic.
#[derive(Debug, PartialEq, Eq)]
pub enum Message {
    /// Application payload addressed to a channel.
    Data { channel: u64, payload: Vec<u8> },
    /// The sender claims the reserved channel named by a sub-channel token.
    Connect { channel: u64 },
    /// The sender has closed the channel.
    Close { channel: u64 },
}

/// Mathematical value of a [`Message`].
pub ghost enum MessageModel {
    Data { channel: u64, payload: Seq<u8> },
    Connect { channel: u64 },
    Close { channel: u64 },
}

impl View for Message {
    type V = MessageModel;

    open spec fn view(&self) -> MessageModel {
        match self {
            Message::Data { channel, payload } => MessageModel::Data { channel: *channel, payload: payload@ },
            Message::Connect { channel } => MessageModel::Connect { channel: *channel },
            Message::Close { channel } => MessageModel::Close { channel: *channel },
        }
    }
}

/// Why a byte buffer is not a frame.
#[derive(Clone, Copy, Debug, PartialEq, Eq)]
pub enum DecodeError {
    /// Truncated input, an unknown tag, or trailing bytes after a control frame.
    Malformed,
}

/// The header of a frame: tag byte followed by the channel identifier.
pub open spec fn header(tag: u8, channel: u64) -> Seq<u8> {
    seq![tag] + spec_u64_to_le_bytes(channel)
}

/// The bytes that encode `m`.
pub open spec fn spec_encode(m: MessageModel) -> Seq<u8> {
    match m {
        MessageModel::Data { channel, payload } => header(TAG_DATA, channel) + payload,
        MessageModel::Connect { channel } => header(TAG_CONNECT, channel),
        MessageModel::Close { channel } => header(TAG_CLOSE, channel),
    }
}

/// The channel identifier carried by the header of `b`.
pub open spec fn header_channel(b: Seq<u8>) -> u64 {
    spec_u64_from_le_bytes(b.subrange(1, 9))
}

/// The message that `b` encodes, if it encodes one.
pub open spec fn spec_decode(b: Seq<u8>) -> Option<MessageModel> {
    if b.len() < 9 {
        None
    } else if b[0] == TAG_DATA {
        Some(MessageModel::Data { channel: header_channel(b), payload: b.subrange(9, b.len() as int) })
    } else if b[0] == TAG_CONNECT && b.len() == 9 {
        Some(MessageModel::Connect { channel: header_channel(b) })
    } else if b[0] == TAG_CLOSE && b.len() == 9 {
        Some(MessageModel::Close { channel: header_channel(b) })
    } else {
        None
    }
}

proof fn lemma_header(tag: u8, channel: u64, rest: Seq<u8>)
    ensures
        (header(tag, channel) + rest).len() == 9 + rest.len(),
        (header(tag, channel) + rest)[0] == tag,
        (header(tag, channel) + rest).subrange(1, 9) == spec_u64_to_le_bytes(channel),
        (header(tag, channel) + rest).subrange(9, 9 + rest.len() as int) == rest,
        header_channel(header(tag, channel) + rest) == channel,
{
    vstd::bytes::lemma_auto_spec_u64_to_from_le_bytes();
    let b = header(tag, channel) + rest;
    assert(b.subrange(1, 9) =~= spec_u64_to_le_bytes(channel));
    assert(b.subrange(9, 9 + rest.len() as int) =~= rest);
}

/// Decoding the encoding of any message gives that message back.
pub proof fn lemma_round_trip(m: MessageModel)
    ensures
        spec_decode(spec_encode(m)) == Some(m),
{
    match m {
        MessageModel::Data { channel, payload } => {
            lemma_header(TAG_DATA, channel, payload);
        },
        MessageModel::Connect { channel } => {
            lemma_header(TAG_CONNECT, channel, Seq::empty());
            assert(header(TAG_CONNECT, channel) + Seq::empty() =~= header(TAG_CONNECT, channel));
        },
        MessageModel::Close { channel } => {
            lemma_header(TAG_CLOSE, channel, Seq::empty());
            assert(header(TAG_CLOSE, channel) + Seq::empty() =~= header(TAG_CLOSE, channel));
        },
    }
}

/// Every buffer that decodes is the encoding of what it decodes to, so two
/// distinct buffers never decode to the same message.
pub proof fn lemma_decode_canonical(b: Seq<u8>)
    ensures
        spec_decode(b) matches Some(m) ==> spec_encode(m) == b,
{
    if let Some(m) = spec_decode(b) {
        vstd::bytes::lemma_auto_spec_u64_to_from_le_bytes();
        assert(b.subrange(1, 9).len() == 8);
        assert(spec_u64_to_le_bytes(header_channel(b)) == b.subrange(1, 9));
        match m {
            MessageModel::Data { channel, payload } => {
                assert(spec_encode(m) =~= b);
            },
            _ => {
                assert(spec_encode(m) =~= b);
            },
        }
    }
}

/// Appends the header of a frame to `out`.
fn push_header(out: &mut Vec<u8>, tag: u8, channel: u64)
    ensures
        final(out)@ == old(out)@ + header(tag, channel),
{
    out.push(tag);
    let id = u64_to_le_bytes(channel);
    let mut i: usize = 0;
    while i < id.len()
        invariant
            id@ == spec_u64_to_le_bytes(channel),
            id@.len() == 8,
            0 <= i <= 8,
            out@ == old(out)@ + seq![tag] + id@.subrange(0, i as int),
        decreases 8 - i,
    {
        out.push(id[i]);
        i = i + 1;
        assert(id@.subrange(0, i as int) =~= id@.subrange(0, i - 1) + seq![id@[i - 1]]);
    }
    assert(id@.subrange(0, 8) =~= id@);
    assert(old(out)@ + seq![tag] + id@ =~= old(out)@ + header(tag, channel));
}

/// Encodes a message as one frame.
pub fn encode(m: &Message) -> (r: Vec<u8>)
    ensures
        r@ == spec_encode(m@),
{
    let mut out: Vec<u8> = Vec::new();
    match m {
        Message::Data { channel, payload } => {
            push_header(&mut out, TAG_DATA, *channel);
            let mut i: usize = 0;
            while i < payload.len()
                invariant
                    0 <= i <= payload@.len(),
                    out@ == header(TAG_DATA, *channel) + payload@.subrange(0, i as int),
                decreases payload@.len() - i,
            {
                out.push(payload[i]);
                i = i + 1;
                assert(payload@.subrange(0, i as int) =~= payload@.subrange(0, i - 1) + seq![payload@[i - 1]]);
            }
            assert(payload@.subrange(0, payload@.len() as int) =~= payload@);
        },
        Message::Connect { channel } => {
            push_header(&mut out, TAG_CONNECT, *channel);
            assert(out@ =~= header(TAG_CONNECT, *channel));
        },
        Message::Close { channel } => {
            push_header(&mut out, TAG_CLOSE, *channel);
            assert(out@ =~= header(TAG_CLOSE, *channel));
        },
    }
    out
}

/// Copies `b[start..end]` into a new vector.
fn copy_range(b: &[u8], start: usize, end: usize) -> (r: Vec<u8>)
    requires
        start <= end <= b@.len(),
    ensures
        r@ == b@.subrange(start as int, end as int),
{
    let mut out: Vec<u8> = Vec::new();
    let mut i: usize = start;
    while i < end
        invariant
            start <= i <= end,
            end <= b@.len(),
            out@ == b@.subrange(start as int, i as int),
        decreases end - i,
    {
        out.push(b[i]);
        i = i + 1;
        assert(b@.subrange(start as int, i as int) =~= b@.subrange(start as int, i - 1) + seq![b@[i - 1]]);
    }
    out
}

/// Decodes one frame; any buffer that is not the encoding of a message is
/// `Malformed`.
pub fn decode(b: &[u8]) -> (r: Result<Message, DecodeError>)
    ensures
        match r {
            Ok(m) => spec_decode(b@) == Some(m@),
            Err(_) => spec_decode(b@).is_none(),
        },
{
    if b.len() < HEADER_LEN {
        return Err(DecodeError::Malformed);
    }
    let id_bytes = copy_range(b, 1, HEADER_LEN);
    let channel = u64_from_le_bytes(id_bytes.as_slice());
    let tag = b[0];
    if tag == TAG_DATA {
        let payload = copy_range(b, HEADER_LEN, b.len());
        Ok(Message::Data { channel, payload })
    } else if tag == TAG_CONNECT && b.len() == HEADER_LEN {
        Ok(Message::Connect { channel })
    } else if tag == TAG_CLOSE && b.len() == HEADER_LEN {
        Ok(Message::Close { channel })
    } else {
        Err(DecodeError::Malformed)
    }
}

/// Tag byte of a stream item inside a channel payload.
pub const TAG_ITEM: u8 = 0;

/// Tag byte of a stream acknowledgement inside a channel payload.
pub const TAG_ACK: u8 = 1;

/// One unit of a bidirectional stream, carried as the payload of a data
/// frame on the stream's channel.
#[derive(Debug, PartialEq, Eq)]
pub enum StreamPart {
    /// An item from the serving side.
    Item(Vec<u8>),
    /// An acknowledgement from the subscribing side.
    Ack(Vec<u8>),
}

/// Mathematical value of a [`StreamPart`].
pub ghost enum StreamPartModel {
    Item(Seq<u8>),
    Ack(Seq<u8>),
}

impl View for StreamPart {
    type V = StreamPartModel;

    open spec fn view(&self) -> StreamPartModel {
        match self {
            StreamPart::Item(b) => StreamPartModel::Item(b@),
            StreamPart::Ack(b) => StreamPartModel::Ack(b@),
        }
    }
}

/// The payload that carries `p`: its tag byte, then its body.
pub open spec fn spec_encode_part(p: StreamPartModel) -> Seq<u8> {
    match p {
        StreamPartModel::Item(b) => seq![TAG_ITEM] + b,
        StreamPartModel::Ack(b) => seq![TAG_ACK] + b,
    }
}

/// The stream part that payload `b` carries, if any.
pub open spec fn spec_decode_part(b: Seq<u8>) -> Option<StreamPartModel> {
    if b.len() == 0 {
        None
    } else if b[0] == TAG_ITEM {
        Some(StreamPartModel::Item(b.drop_first()))
    } else if b[0] == TAG_ACK {
        Some(StreamPartModel::Ack(b.drop_first()))
    } else {
        None
    }
}

/// Decoding the payload of any stream part gives that part back.
pub proof fn lemma_part_round_trip(p: StreamPartModel)
    ensures
        spec_decode_part(spec_encode_part(p)) == Some(p),
{
    match p {
        StreamPartModel::Item(b) => {
            assert((seq![TAG_ITEM] + b).drop_first() =~= b);
        },
        StreamPartModel::Ack(b) => {
            assert((seq![TAG_ACK] + b).drop_first() =~= b);
        },
    }
}

/// Encodes a stream part as a channel payload.
pub fn encode_part(p: &StreamPart) -> (r: Vec<u8>)
    ensures
        r@ == spec_encode_part(p@),
{
    let (tag, body) = match p {
        StreamPart::Item(b) => (TAG_ITEM, b),
        StreamPart::Ack(b) => (TAG_ACK, b),
    };
    let mut out: Vec<u8> = Vec::new();
    out.push(tag);
    let mut i: usize = 0;
    while i < body.len()
        invariant
            0 <= i <= body@.len(),
            out@ == seq![tag] + body@.subrange(0, i as int),
        decreases body@.len() - i,
    {
        out.push(body[i]);
        i = i + 1;
        assert(body@.subrange(0, i as int) =~= body@.subrange(0, i - 1) + seq![body@[i - 1]]);
    }
    assert(body@.subrange(0, body@.len() as int) =~= body@);
    out
}

/// Decodes a channel payload as a stream part; an empty payload or an
/// unknown tag is `Malformed`.
pub fn decode_part(b: &[u8]) -> (r: Result<StreamPart, DecodeError>)
    ensures
        match r {
            Ok(p) => spec_decode_part(b@) == Some(p@),
            Err(_) => spec_decode_part(b@).is_none(),
        },
{
    if b.len() == 0 {
        return Err(DecodeError::Malformed);
    }
    let body = copy_range(b, 1, b.len());
    assert(body@ =~= b@.drop_first());
    if b[0] == TAG_ITEM {
        Ok(StreamPart::Item(body))
    } else if b[0] == TAG_ACK {
        Ok(StreamPart::Ack(body))
    } else {
        Err(DecodeError::Malformed)
    }
}

} // verus!
