//! Frames on a byte stream.
//!
//! A frame is the length of its payload, as a variable-length integer,
//! followed by the payload: one message (see `payload`). A payload is never
//! empty and never longer than `MAX_PAYLOAD_LEN`.

use bytes::BytesMut;
use vstd::prelude::*;
use vstd::slice::slice_subrange;

use crate::buffer::{advance, contents, put_slice, remaining, unread};
use crate::encoding::{
    get_varint_le, lemma_varint_bytes_len, lemma_varint_roundtrip, put_varint_le, varint_bytes,
    varint_parse, VarintError, VarintParse,
};
use crate::messages::{Message, MessageView};
use crate::payload::{
    decode_message, deserialize, lemma_decode_message, lengths_fit, message_bytes, selector,
    serialize, MAX_PAYLOAD_LEN,
};

verus! {

/// Why a frame was refused. Each of these ends the session.
#[derive(Debug, Clone, Copy, PartialEq, Eq, Structural)]
pub enum CodecError {
    /// The length starts with a byte that is no discriminant.
    InvalidDiscriminant(u8),
    /// The frame declares a longer payload than the buffer holds.
    LengthExceedsRemaining { length: u64, remaining: usize },
    /// The frame declares an empty payload.
    ZeroLength,
    /// The payload is longer than `MAX_PAYLOAD_LEN`.
    TooLarge,
    /// The payload does not spell a message.
    Malformed,
}

/// A message as a frame: length, then payload.
pub open spec fn frame_bytes(m: MessageView) -> Seq<u8> {
    varint_bytes(message_bytes(m).len() as u64) + message_bytes(m)
}

/// What the front of a byte stream is, read as a frame.
pub enum FrameParse {
    /// The stream ends before the length does: more bytes are needed.
    NeedMore,
    /// A frame: its message, and the number of bytes that the frame takes.
    Frame { message: MessageView, len: nat },
    /// No frame; `consumed` bytes of the stream are lost with the error.
    Rejected { error: CodecError, consumed: nat },
}

/// Reads the front of `bytes` as a frame.
pub open spec fn parse_frame(bytes: Seq<u8>) -> FrameParse {
    match varint_parse(bytes) {
        VarintParse::Incomplete => FrameParse::NeedMore,
        VarintParse::Invalid { discriminant } => FrameParse::Rejected {
            error: CodecError::InvalidDiscriminant(discriminant),
            consumed: 1,
        },
        VarintParse::Value { value, len } => {
            let left = (bytes.len() - len) as nat;
            if value > left {
                FrameParse::Rejected {
                    error: CodecError::LengthExceedsRemaining {
                        length: value,
                        remaining: left as usize,
                    },
                    consumed: len,
                }
            } else if value == 0 {
                FrameParse::Rejected { error: CodecError::ZeroLength, consumed: len }
            } else if value > MAX_PAYLOAD_LEN {
                FrameParse::Rejected { error: CodecError::TooLarge, consumed: len }
            } else {
                match decode_message(bytes.subrange(len as int, len + value)) {
                    Some(message) => FrameParse::Frame { message, len: len + value as nat },
                    None => FrameParse::Rejected { error: CodecError::Malformed, consumed: len },
                }
            }
        },
    }
}

/// A message whose payload a frame can carry.
pub open spec fn fits_in_frame(m: MessageView) -> bool {
    lengths_fit(m) && message_bytes(m).len() <= MAX_PAYLOAD_LEN
}

/// Decoding undoes encoding: the frame of a message, followed by anything,
/// is read back as that message, and the frame's bytes alone are taken.
pub proof fn lemma_frame_roundtrip(m: MessageView, rest: Seq<u8>)
    requires
        fits_in_frame(m),
    ensures
        parse_frame(frame_bytes(m) + rest) == (FrameParse::Frame {
            message: m,
            len: frame_bytes(m).len(),
        }),
{
    let payload = message_bytes(m);
    let count = payload.len() as u64;
    let head = varint_bytes(count);
    let all = frame_bytes(m) + rest;
    lemma_varint_roundtrip(count, payload + rest);
    assert(all =~= head + (payload + rest));
    assert(all.subrange(head.len() as int, head.len() + count) =~= payload);
    lemma_decode_message(m);
    lemma_payload_not_empty(m);
}

/// A payload holds at least the selector of its message.
pub proof fn lemma_payload_not_empty(m: MessageView)
    ensures
        message_bytes(m).len() >= 1,
{
    lemma_varint_bytes_len(selector(m) as u64);
}

/// Encodes messages into frames and decodes frames into messages.
pub struct MessagesCodec {}

impl MessagesCodec {
    /// A codec. It holds no state between frames.
    pub fn new() -> (codec: Self) {
        MessagesCodec {  }
    }

    /// Appends `item` to `dst` as one frame. A message whose payload would
    /// be longer than `MAX_PAYLOAD_LEN` is refused, and `dst` is left as it
    /// was.
    pub fn encode(&mut self, item: Message, dst: &mut BytesMut) -> (result: Result<(), CodecError>)
        requires
            contents(*old(dst)).len() + MAX_PAYLOAD_LEN + 9 <= isize::MAX,
        ensures
            result is Ok <==> message_bytes(item@).len() <= MAX_PAYLOAD_LEN,
            result is Ok ==> fits_in_frame(item@) && contents(*final(dst)) == contents(*old(dst))
                + frame_bytes(item@),
            result is Err ==> result == Err::<(), CodecError>(CodecError::TooLarge) && contents(
                *final(dst),
            ) == contents(*old(dst)),
    {
        let payload: Vec<u8> = serialize(&item);
        if payload.len() > MAX_PAYLOAD_LEN {
            return Err(CodecError::TooLarge);
        }
        put_varint_le(dst, payload.len() as u64);
        proof {
            lemma_varint_bytes_len(payload.len() as u64);
        }
        put_slice(dst, payload.as_slice());
        assert(contents(*dst) =~= contents(*old(dst)) + frame_bytes(item@));
        Ok(())
    }

    /// Takes one frame from the front of `src`.
    ///
    /// Where `src` ends before the length of the frame does, nothing is
    /// taken and the answer is `Ok(None)`: more bytes are needed. Once the
    /// length is there, the payload must be there in full: a frame that
    /// declares more bytes than `src` holds is refused as truncated, not
    /// waited for. A frame that is refused loses its length (of a bad
    /// discriminant, that byte) to the error.
    pub fn decode(&mut self, src: &mut BytesMut) -> (result: Result<Option<Message>, CodecError>)
        ensures
            match parse_frame(contents(*old(src))) {
                FrameParse::NeedMore => {
                    &&& result matches Ok(None)
                    &&& contents(*final(src)) == contents(*old(src))
                },
                FrameParse::Frame { message, len } => {
                    &&& result matches Ok(Some(m))
                    &&& m@ == message
                    &&& contents(*final(src)) == contents(*old(src)).skip(len as int)
                },
                FrameParse::Rejected { error, consumed } => {
                    &&& result matches Err(e)
                    &&& e == error
                    &&& contents(*final(src)) == contents(*old(src)).skip(consumed as int)
                },
            },
    {
        let ghost before = contents(*src);
        let length: u64 = match get_varint_le(src) {
            Ok(length) => length,
            Err(VarintError::UnexpectedEnd) => {
                return Ok(None);
            },
            Err(VarintError::InvalidDiscriminant(discriminant)) => {
                return Err(CodecError::InvalidDiscriminant(discriminant));
            },
        };
        let ghost head = before.len() - contents(*src).len();
        let left: usize = remaining(src);
        if length > left as u64 {
            return Err(CodecError::LengthExceedsRemaining { length, remaining: left });
        }
        if length == 0 {
            return Err(CodecError::ZeroLength);
        }
        if length > MAX_PAYLOAD_LEN as u64 {
            return Err(CodecError::TooLarge);
        }
        let count: usize = length as usize;
        let decoded: Option<Message> = {
            let bytes: &[u8] = unread(src);
            let payload: &[u8] = slice_subrange(bytes, 0, count);
            assert(payload@ =~= before.subrange(head, head + length));
            deserialize(payload)
        };
        match decoded {
            Some(message) => {
                advance(src, count);
                assert(contents(*src) =~= before.skip(head + length));
                Ok(Some(message))
            },
            None => Err(CodecError::Malformed),
        }
    }
}

impl Default for MessagesCodec {
    fn default() -> (codec: Self) {
        MessagesCodec::new()
    }
}

} // verus!
