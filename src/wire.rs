//! Wire codec: DLC messages and segment frames as `u16 big-endian type tag || body`.
use vstd::prelude::*;

verus! {

/// Type tag of an `offer_dlc` message.
pub const TYPE_OFFER: u16 = 42778;

/// Type tag of an `accept_dlc` message.
pub const TYPE_ACCEPT: u16 = 42780;

/// Type tag of a `sign_dlc` message.
pub const TYPE_SIGN: u16 = 42782;

/// Type tag reserved for the frame that opens a segmented message.
pub const TYPE_SEGMENT_START: u16 = 42900;

/// Type tag reserved for a continuation frame of a segmented message.
pub const TYPE_SEGMENT_CHUNK: u16 = 42902;

/// Bytes in front of the first chunk of a `SegmentStart` frame: tag and total length.
pub const SEGMENT_START_HEADER: usize = 6;

/// Bytes in front of the chunk of a `SegmentChunk` frame: tag and sequence number.
pub const SEGMENT_CHUNK_HEADER: usize = 4;

#[derive(Clone, Copy, Debug, PartialEq, Eq, Structural)]
pub enum MessageKind {
    Offer,
    Accept,
    Sign,
}

#[derive(Clone, Copy, Debug, PartialEq, Eq, Structural)]
pub enum WireError {
    UnknownType,
    Truncated,
    SegmentOutOfOrder,
    SegmentIncomplete,
    SegmentOverflow,
    SegmentTooLarge,
}

/// A complete DLC protocol message: its variant and its variant-specific body.
#[derive(Clone, Debug, PartialEq, Eq)]
pub struct DlcMessage {
    pub kind: MessageKind,
    pub body: Vec<u8>,
}

/// One frame on the wire.
#[derive(Clone, Debug, PartialEq, Eq)]
pub enum WireFrame {
    Message(DlcMessage),
    SegmentStart { total_len: u32, first_chunk: Vec<u8> },
    SegmentChunk { seq: u16, bytes: Vec<u8> },
}

/// Mathematical model of a frame.
pub enum FrameModel {
    Message(MessageKind, Seq<u8>),
    SegmentStart(u32, Seq<u8>),
    SegmentChunk(u16, Seq<u8>),
}

impl View for WireFrame {
    type V = FrameModel;

    open spec fn view(&self) -> FrameModel {
        match self {
            WireFrame::Message(m) => FrameModel::Message(m.kind, m.body@),
            WireFrame::SegmentStart { total_len, first_chunk } => FrameModel::SegmentStart(
                *total_len,
                first_chunk@,
            ),
            WireFrame::SegmentChunk { seq, bytes } => FrameModel::SegmentChunk(*seq, bytes@),
        }
    }
}

pub open spec fn kind_tag(k: MessageKind) -> u16 {
    match k {
        MessageKind::Offer => TYPE_OFFER,
        MessageKind::Accept => TYPE_ACCEPT,
        MessageKind::Sign => TYPE_SIGN,
    }
}

pub open spec fn tag_kind(t: u16) -> Option<MessageKind> {
    if t == TYPE_OFFER {
        Some(MessageKind::Offer)
    } else if t == TYPE_ACCEPT {
        Some(MessageKind::Accept)
    } else if t == TYPE_SIGN {
        Some(MessageKind::Sign)
    } else {
        None
    }
}

/// Big-endian bytes of a 16-bit value.
pub open spec fn be16(v: u16) -> Seq<u8> {
    seq![(v / 256) as u8, (v % 256) as u8]
}

/// Big-endian bytes of a 32-bit value.
pub open spec fn be32(v: u32) -> Seq<u8> {
    seq![
        (v / 0x1000000) as u8,
        ((v / 0x10000) % 256) as u8,
        ((v / 256) % 256) as u8,
        (v % 256) as u8,
    ]
}

/// The 16-bit value whose big-endian bytes start at `i`.
pub open spec fn read_be16(b: Seq<u8>, i: int) -> u16 {
    (b[i] as int * 256 + b[i + 1] as int) as u16
}

/// The 32-bit value whose big-endian bytes start at `i`.
pub open spec fn read_be32(b: Seq<u8>, i: int) -> u32 {
    (b[i] as int * 0x1000000 + b[i + 1] as int * 0x10000 + b[i + 2] as int * 256
        + b[i + 3] as int) as u32
}

/// The bytes of a frame.
pub open spec fn frame_bytes(f: FrameModel) -> Seq<u8> {
    match f {
        FrameModel::Message(k, body) => be16(kind_tag(k)) + body,
        FrameModel::SegmentStart(total, chunk) => be16(TYPE_SEGMENT_START) + be32(total) + chunk,
        FrameModel::SegmentChunk(seq, chunk) => be16(TYPE_SEGMENT_CHUNK) + be16(seq) + chunk,
    }
}

/// What reading a frame from `b` gives.
pub open spec fn parse_frame(b: Seq<u8>) -> Result<FrameModel, WireError> {
    if b.len() < 2 {
        Err(WireError::Truncated)
    } else {
        let tag = read_be16(b, 0);
        if tag == TYPE_SEGMENT_START {
            if b.len() < 6 {
                Err(WireError::Truncated)
            } else {
                Ok(FrameModel::SegmentStart(read_be32(b, 2), b.skip(6)))
            }
        } else if tag == TYPE_SEGMENT_CHUNK {
            if b.len() < 4 {
                Err(WireError::Truncated)
            } else {
                Ok(FrameModel::SegmentChunk(read_be16(b, 2), b.skip(4)))
            }
        } else {
            match tag_kind(tag) {
                Some(k) => Ok(FrameModel::Message(k, b.skip(2))),
                None => Err(WireError::UnknownType),
            }
        }
    }
}

pub open spec fn frame_result_matches(r: Result<WireFrame, WireError>, b: Seq<u8>) -> bool {
    match r {
        Ok(f) => parse_frame(b) == Ok::<FrameModel, WireError>(f@),
        Err(e) => parse_frame(b) == Err::<FrameModel, WireError>(e),
    }
}

proof fn lemma_be16(v: u16)
    ensures
        read_be16(be16(v), 0) == v,
{
}

proof fn lemma_be32(v: u32)
    ensures
        read_be32(be32(v), 0) == v,
{
    assert(v == (v / 0x1000000) * 0x1000000 + ((v / 0x10000) % 256) * 0x10000 + ((v / 256) % 256)
        * 256 + v % 256) by (nonlinear_arith);
}

/// Decoding the bytes of a frame gives that frame back.
pub proof fn lemma_frame_round_trip(f: FrameModel)
    ensures
        parse_frame(frame_bytes(f)) == Ok::<FrameModel, WireError>(f),
{
    let b = frame_bytes(f);
    match f {
        FrameModel::Message(k, body) => {
            lemma_be16(kind_tag(k));
            assert(b.skip(2) =~= body);
        },
        FrameModel::SegmentStart(total, chunk) => {
            lemma_be16(TYPE_SEGMENT_START);
            lemma_be32(total);
            assert(b.subrange(2, 6) =~= be32(total));
            assert(b.skip(6) =~= chunk);
        },
        FrameModel::SegmentChunk(seq, chunk) => {
            lemma_be16(TYPE_SEGMENT_CHUNK);
            lemma_be16(seq);
            assert(b.skip(4) =~= chunk);
        },
    }
}

fn push_be16(out: &mut Vec<u8>, v: u16)
    ensures
        final(out)@ == old(out)@ + be16(v),
{
    out.push((v / 256) as u8);
    out.push((v % 256) as u8);
}

/// Appends `src` to `out`.
pub fn append_bytes(out: &mut Vec<u8>, src: &Vec<u8>)
    ensures
        final(out)@ == old(out)@ + src@,
{
    let mut i: usize = 0;
    while i < src.len()
        invariant
            i <= src@.len(),
            out@ == old(out)@ + src@.take(i as int),
        decreases src@.len() - i,
    {
        out.push(src[i]);
        i = i + 1;
        assert(src@.take(i as int) =~= src@.take((i - 1) as int).push(src@[i - 1]));
    }
    assert(src@.take(i as int) =~= src@);
}

/// A copy of `b[start..end]`.
pub fn copy_range(b: &Vec<u8>, start: usize, end: usize) -> (r: Vec<u8>)
    requires
        start <= end <= b@.len(),
    ensures
        r@ == b@.subrange(start as int, end as int),
{
    let mut r: Vec<u8> = Vec::new();
    let mut i: usize = start;
    while i < end
        invariant
            start <= i <= end <= b@.len(),
            r@ == b@.subrange(start as int, i as int),
        decreases end - i,
    {
        r.push(b[i]);
        i = i + 1;
        assert(r@ =~= b@.subrange(start as int, i as int));
    }
    r
}

/// The type tag of a message kind.
pub fn message_type_tag(k: MessageKind) -> (r: u16)
    ensures
        r == kind_tag(k),
{
    match k {
        MessageKind::Offer => TYPE_OFFER,
        MessageKind::Accept => TYPE_ACCEPT,
        MessageKind::Sign => TYPE_SIGN,
    }
}

/// Serialises a frame: its 2-byte big-endian type tag, then its body.
pub fn encode_frame(f: &WireFrame) -> (r: Vec<u8>)
    ensures
        r@ == frame_bytes(f@),
{
    let mut out: Vec<u8> = Vec::new();
    match f {
        WireFrame::Message(m) => {
            push_be16(&mut out, message_type_tag(m.kind));
            append_bytes(&mut out, &m.body);
        },
        WireFrame::SegmentStart { total_len, first_chunk } => {
            push_be16(&mut out, TYPE_SEGMENT_START);
            let t = *total_len;
            out.push((t / 0x1000000) as u8);
            out.push(((t / 0x10000) % 256) as u8);
            out.push(((t / 256) % 256) as u8);
            out.push((t % 256) as u8);
            append_bytes(&mut out, first_chunk);
            assert(out@ =~= frame_bytes(f@));
        },
        WireFrame::SegmentChunk { seq, bytes } => {
            push_be16(&mut out, TYPE_SEGMENT_CHUNK);
            push_be16(&mut out, *seq);
            append_bytes(&mut out, bytes);
            assert(out@ =~= frame_bytes(f@));
        },
    }
    out
}

/// Serialises a complete DLC message: `u16 type_tag || body`.
pub fn encode_message(m: &DlcMessage) -> (r: Vec<u8>)
    ensures
        r@ == be16(kind_tag(m.kind)) + m.body@,
{
    let mut out: Vec<u8> = Vec::new();
    push_be16(&mut out, message_type_tag(m.kind));
    append_bytes(&mut out, &m.body);
    out
}

/// Reads one frame: the type tag decides the variant, the rest of the bytes is its body.
pub fn decode_frame(b: &Vec<u8>) -> (r: Result<WireFrame, WireError>)
    ensures
        frame_result_matches(r, b@),
{
    let n = b.len();
    if n < 2 {
        return Err(WireError::Truncated);
    }
    let tag: u16 = (b[0] as u16) * 256 + b[1] as u16;
    assert(tag == read_be16(b@, 0));
    if tag == TYPE_SEGMENT_START {
        if n < 6 {
            return Err(WireError::Truncated);
        }
        let total: u32 = (b[2] as u32) * 0x1000000 + (b[3] as u32) * 0x10000 + (b[4] as u32) * 256
            + b[5] as u32;
        let chunk = copy_range(b, 6, n);
        assert(chunk@ =~= b@.skip(6));
        Ok(WireFrame::SegmentStart { total_len: total, first_chunk: chunk })
    } else if tag == TYPE_SEGMENT_CHUNK {
        if n < 4 {
            return Err(WireError::Truncated);
        }
        let seq: u16 = (b[2] as u16) * 256 + b[3] as u16;
        let chunk = copy_range(b, 4, n);
        assert(chunk@ =~= b@.skip(4));
        Ok(WireFrame::SegmentChunk { seq, bytes: chunk })
    } else {
        let kind = if tag == TYPE_OFFER {
            MessageKind::Offer
        } else if tag == TYPE_ACCEPT {
            MessageKind::Accept
        } else if tag == TYPE_SIGN {
            MessageKind::Sign
        } else {
            return Err(WireError::UnknownType);
        };
        let body = copy_range(b, 2, n);
        assert(body@ =~= b@.skip(2));
        Ok(WireFrame::Message(DlcMessage { kind, body }))
    }
}

/// Reads bytes that must hold one complete message. A segment frame there is a
/// protocol error and reads as `UnknownType`.
pub fn decode_message(b: &Vec<u8>) -> (r: Result<DlcMessage, WireError>)
    ensures
        match parse_frame(b@) {
            Ok(FrameModel::Message(k, body)) => r matches Ok(m) && m.kind == k && m.body@ == body,
            Ok(_) => r == Err::<DlcMessage, WireError>(WireError::UnknownType),
            Err(e) => r == Err::<DlcMessage, WireError>(e),
        },
{
    match decode_frame(b) {
        Ok(WireFrame::Message(m)) => Ok(m),
        Ok(_) => Err(WireError::UnknownType),
        Err(e) => Err(e),
    }
}

} // verus!
