//! Payloads and the bytes that they travel as.
//!
//! The module itself never looks into a payload: an outbound payload is encoded before it is
//! stored, an inbound payload is decoded before it is dispatched. A message whose payload does
//! not decode is still a message: it keeps its place in the lane.
use crate::primitives::{Message, MessageKey, Weight};
use vstd::bytes::{
    lemma_auto_spec_u64_to_from_le_bytes, spec_u64_from_le_bytes, spec_u64_to_le_bytes,
};
use vstd::prelude::*;

verus! {

/// The bytes of a payload do not decode.
#[derive(Clone, Copy, PartialEq, Eq, Debug, Structural)]
pub struct DecodeError;

/// A payload that can be turned into bytes.
pub trait Encode {
    /// Tells whether `bytes` may be the encoding of the payload. A payload type that says no
    /// more allows all bytes.
    open spec fn encodes_to(&self, bytes: Seq<u8>) -> bool {
        true
    }

    /// Encodes the payload.
    fn encode(&self) -> (bytes: Vec<u8>)
        ensures
            self.encodes_to(bytes@),
    ;
}

/// A payload that can be read back from bytes.
pub trait Decode: Sized {
    /// Tells whether reading `bytes` may give `payload`. A payload type that says no more allows
    /// every outcome.
    open spec fn decodes_to(bytes: Seq<u8>, payload: Result<Self, DecodeError>) -> bool {
        true
    }

    /// Reads the payload from the front of the bytes.
    fn decode(bytes: &Vec<u8>) -> (payload: Result<Self, DecodeError>)
        ensures
            Self::decodes_to(bytes@, payload),
    ;
}

/// Reading the bytes can have one outcome only.
pub open spec fn decodes_one_way<Payload: Decode>(bytes: Seq<u8>) -> bool {
    forall|payload: Result<Payload, DecodeError>, other: Result<Payload, DecodeError>| #[trigger]
        Payload::decodes_to(bytes, payload) && #[trigger] Payload::decodes_to(bytes, other)
            ==> payload == other
}

/// Inbound message data, ready for the dispatch.
#[derive(Debug)]
pub struct DispatchMessageData<Payload, Fee> {
    /// Outcome of decoding the payload.
    pub payload: Result<Payload, DecodeError>,
    /// Fee that has been paid for the message at the bridged chain.
    pub fee: Fee,
}

/// Inbound message, ready for the dispatch.
#[derive(Debug)]
pub struct DispatchMessage<Payload, Fee> {
    /// Message key.
    pub key: MessageKey,
    /// Message data.
    pub data: DispatchMessageData<Payload, Fee>,
}

/// `decoded` is `message` with its payload decoded: key and fee stay.
pub open spec fn decoded_from<Payload: Decode, Fee>(
    message: Message<Fee>,
    decoded: DispatchMessage<Payload, Fee>,
) -> bool {
    &&& decoded.key == message.key
    &&& decoded.data.fee == message.data.fee
    &&& Payload::decodes_to(message.data.payload@, decoded.data.payload)
}

/// Decodes the payload of a message. The message is handed on even if the payload does not decode.
pub fn decode_message<Payload: Decode, Fee>(message: Message<Fee>) -> (decoded: DispatchMessage<
    Payload,
    Fee,
>)
    ensures
        decoded_from(message, decoded),
{
    DispatchMessage {
        key: message.key,
        data: DispatchMessageData {
            payload: Payload::decode(&message.data.payload),
            fee: message.data.fee,
        },
    }
}

/// The bytes of a call number and its weight: eight bytes each, the least significant one first.
pub open spec fn weighed_call_bytes(call: (u64, Weight)) -> Seq<u8> {
    spec_u64_to_le_bytes(call.0) + spec_u64_to_le_bytes(call.1)
}

/// `parity_scale_codec::Encode::encode` of a pair of `u64`: the bytes of the first number,
/// then those of the second, each number in eight bytes with the least significant one first.
#[verifier::external_body]
fn scale_encode_pair(first: u64, second: u64) -> (bytes: Vec<u8>)
    ensures
        bytes@ == spec_u64_to_le_bytes(first) + spec_u64_to_le_bytes(second),
{
    parity_scale_codec::Encode::encode(&(first, second))
}

/// `parity_scale_codec::Decode::decode` of a pair of `u64` from a byte slice: it succeeds if
/// and only if there are sixteen bytes; the first eight give the first number, the next eight
/// the second one, the least significant byte first. Bytes that follow are left alone. A
/// failure is `None`: of the codec's error nothing is kept.
#[verifier::external_body]
fn scale_decode_pair(bytes: &Vec<u8>) -> (pair: Option<(u64, u64)>)
    ensures
        pair is Some <==> bytes@.len() >= 16,
        pair matches Some(numbers) ==> numbers == (
            spec_u64_from_le_bytes(bytes@.subrange(0, 8)),
            spec_u64_from_le_bytes(bytes@.subrange(8, 16)),
        ),
{
    parity_scale_codec::Decode::decode(&mut bytes.as_slice()).ok()
}

/// A payload made of the number of a call and the weight that its dispatch takes.
impl Encode for (u64, Weight) {
    open spec fn encodes_to(&self, bytes: Seq<u8>) -> bool {
        bytes == weighed_call_bytes(*self)
    }

    fn encode(&self) -> (bytes: Vec<u8>) {
        scale_encode_pair(self.0, self.1)
    }
}

impl Decode for (u64, Weight) {
    open spec fn decodes_to(bytes: Seq<u8>, payload: Result<Self, DecodeError>) -> bool {
        payload == if bytes.len() >= 16 {
            Ok::<(u64, Weight), DecodeError>(
                (
                    spec_u64_from_le_bytes(bytes.subrange(0, 8)),
                    spec_u64_from_le_bytes(bytes.subrange(8, 16)),
                ),
            )
        } else {
            Err(DecodeError)
        }
    }

    fn decode(bytes: &Vec<u8>) -> (payload: Result<Self, DecodeError>) {
        match scale_decode_pair(bytes) {
            Some(pair) => Ok(pair),
            None => Err(DecodeError),
        }
    }
}

/// Reading the bytes of a call has one outcome only, whatever the bytes are.
pub proof fn calls_decode_one_way(bytes: Seq<u8>)
    ensures
        decodes_one_way::<(u64, Weight)>(bytes),
{
}

/// What has been encoded is read back: bytes that encode a call decode to that call and to
/// nothing else.
pub proof fn encoded_call_is_read_back(
    call: (u64, Weight),
    bytes: Seq<u8>,
    payload: Result<(u64, Weight), DecodeError>,
)
    requires
        call.encodes_to(bytes),
    ensures
        <(u64, Weight) as Decode>::decodes_to(bytes, payload) <==> payload == Ok::<
            (u64, Weight),
            DecodeError,
        >(call),
{
    lemma_auto_spec_u64_to_from_le_bytes();
    assert(spec_u64_to_le_bytes(call.0).len() == 8);
    assert(spec_u64_to_le_bytes(call.1).len() == 8);
    assert(bytes.subrange(0, 8) =~= spec_u64_to_le_bytes(call.0));
    assert(bytes.subrange(8, 16) =~= spec_u64_to_le_bytes(call.1));
}

} // verus!
