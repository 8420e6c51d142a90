//! Lane identifiers, messages, lane data, and what the module's calls take and give back.
use std::collections::{BTreeMap, VecDeque};
use vstd::prelude::*;

verus! {

/// Lane identifier. Lanes are taken in the order of their identifiers.
pub type LaneId = u32;

/// Message nonce. The first message of a lane has nonce 1; nonces of a lane have no gaps.
pub type MessageNonce = u64;

/// Weight of a dispatch.
pub type Weight = u64;

/// What a value needs that is kept by the module: it is copied out of the storage and compared.
pub trait Parameter: Sized {
    /// Makes another copy of the value.
    fn duplicate(&self) -> (copy: Self)
        ensures
            copy == *self,
    ;

    /// Tells whether the two values are the same.
    fn same(&self, other: &Self) -> (equal: bool)
        ensures
            equal == (*self == *other),
    ;
}

impl Parameter for u64 {
    fn duplicate(&self) -> (copy: Self) {
        *self
    }

    fn same(&self, other: &Self) -> (equal: bool) {
        *self == *other
    }
}

impl Parameter for u128 {
    fn duplicate(&self) -> (copy: Self) {
        *self
    }

    fn same(&self, other: &Self) -> (equal: bool) {
        *self == *other
    }
}

/// Message key (unique message identifier) as it is stored in the storage.
#[derive(Clone, Copy, PartialEq, Eq, Debug, Structural)]
pub struct MessageKey {
    /// Lane that the message is sent over.
    pub lane_id: LaneId,
    /// Nonce of the message.
    pub nonce: MessageNonce,
}

/// Message data as it is stored in the storage.
#[derive(Clone, PartialEq, Debug)]
pub struct MessageData<Fee> {
    /// Encoded message payload.
    pub payload: Vec<u8>,
    /// Fee that the submitter has paid for the delivery and the dispatch of the message.
    pub fee: Fee,
}

/// What [`MessageData`] stands for.
#[verifier::ext_equal]
pub struct MessageContents<Fee> {
    pub payload: Seq<u8>,
    pub fee: Fee,
}

impl<Fee> View for MessageData<Fee> {
    type V = MessageContents<Fee>;

    open spec fn view(&self) -> MessageContents<Fee> {
        MessageContents { payload: self.payload@, fee: self.fee }
    }
}

impl<Fee: Parameter> MessageData<Fee> {
    /// Makes another copy of the data.
    pub fn duplicate(&self) -> (copy: Self)
        ensures
            copy@ == self@,
    {
        let payload = self.payload.clone();
        assert(payload@ =~= self.payload@);
        MessageData { payload, fee: self.fee.duplicate() }
    }
}

/// A message with its key, as a proof of the bridged chain delivers it.
#[derive(Debug)]
pub struct Message<Fee> {
    /// Message key.
    pub key: MessageKey,
    /// Message data.
    pub data: MessageData<Fee>,
}

/// Inbound lane data.
#[derive(Clone, PartialEq, Debug)]
pub struct InboundLaneData<RelayerId> {
    /// Relayers that have delivered messages to this chain and wait for the confirmation:
    /// each with the first and the last nonce of the messages that it has delivered, in the
    /// order of the nonces.
    pub relayers: VecDeque<(MessageNonce, MessageNonce, RelayerId)>,
    /// Nonce of the latest message that this chain has received.
    pub latest_received_nonce: MessageNonce,
    /// Nonce of the latest message whose receival the bridged chain has confirmed.
    pub latest_confirmed_nonce: MessageNonce,
}

/// What [`InboundLaneData`] stands for.
#[verifier::ext_equal]
pub struct InboundLaneState<RelayerId> {
    pub relayers: Seq<(MessageNonce, MessageNonce, RelayerId)>,
    pub latest_received_nonce: MessageNonce,
    pub latest_confirmed_nonce: MessageNonce,
}

impl<RelayerId> View for InboundLaneData<RelayerId> {
    type V = InboundLaneState<RelayerId>;

    open spec fn view(&self) -> InboundLaneState<RelayerId> {
        InboundLaneState {
            relayers: self.relayers@,
            latest_received_nonce: self.latest_received_nonce,
            latest_confirmed_nonce: self.latest_confirmed_nonce,
        }
    }
}

impl<RelayerId> InboundLaneState<RelayerId> {
    /// The lane before any message has come in.
    pub open spec fn initial() -> Self {
        InboundLaneState {
            relayers: Seq::empty(),
            latest_received_nonce: 0,
            latest_confirmed_nonce: 0,
        }
    }
}

impl<RelayerId> Default for InboundLaneData<RelayerId> {
    fn default() -> (data: Self)
        ensures
            data@ == InboundLaneState::<RelayerId>::initial(),
    {
        InboundLaneData {
            relayers: VecDeque::new(),
            latest_received_nonce: 0,
            latest_confirmed_nonce: 0,
        }
    }
}

impl<RelayerId: Parameter> InboundLaneData<RelayerId> {
    /// Makes another copy of the data.
    pub fn duplicate(&self) -> (copy: Self)
        ensures
            copy@ == self@,
    {
        let mut relayers: VecDeque<(MessageNonce, MessageNonce, RelayerId)> = VecDeque::new();
        let mut i: usize = 0;
        while i < self.relayers.len()
            invariant
                i <= self.relayers@.len(),
                relayers@ =~= self.relayers@.take(i as int),
            decreases self.relayers@.len() - i,
        {
            let entry = &self.relayers[i];
            relayers.push_back((entry.0, entry.1, entry.2.duplicate()));
            i += 1;
        }
        InboundLaneData {
            relayers,
            latest_received_nonce: self.latest_received_nonce,
            latest_confirmed_nonce: self.latest_confirmed_nonce,
        }
    }
}

/// Outbound lane data.
#[derive(Clone, Copy, PartialEq, Eq, Debug, Structural)]
pub struct OutboundLaneData {
    /// Nonce of the oldest message that has not been pruned yet. It may point to a message that
    /// has not been generated yet.
    pub oldest_unpruned_nonce: MessageNonce,
    /// Nonce of the latest message whose receival the bridged chain has confirmed.
    pub latest_received_nonce: MessageNonce,
    /// Nonce of the latest message that has been sent over the lane.
    pub latest_generated_nonce: MessageNonce,
}

impl OutboundLaneData {
    /// The lane before any message has been sent.
    pub open spec fn initial() -> Self {
        OutboundLaneData {
            oldest_unpruned_nonce: 1,
            latest_received_nonce: 0,
            latest_generated_nonce: 0,
        }
    }
}

impl Default for OutboundLaneData {
    fn default() -> (data: Self)
        ensures
            data == OutboundLaneData::initial(),
    {
        OutboundLaneData {
            oldest_unpruned_nonce: 1,
            latest_received_nonce: 0,
            latest_generated_nonce: 0,
        }
    }
}

/// Messages of a single lane, as a proof of the bridged chain delivers them.
#[derive(Debug)]
pub struct ProvedLaneMessages<Message> {
    /// State of the outbound lane at the bridged chain, where the proof holds it.
    pub lane_state: Option<OutboundLaneData>,
    /// Messages sent over the lane.
    pub messages: Vec<Message>,
}

/// Messages of all lanes that a proof holds.
pub type ProvedMessages<Message> = BTreeMap<LaneId, ProvedLaneMessages<Message>>;

/// Origin of a call.
#[derive(PartialEq, Eq, Debug)]
pub enum RawOrigin<AccountId> {
    /// The system itself.
    Root,
    /// An account that has signed the call.
    Signed(AccountId),
    /// Nobody has signed the call.
    Unsigned,
}

/// Errors of the module.
#[derive(Clone, Copy, PartialEq, Eq, Debug, Structural)]
pub enum Error {
    /// Message has been treated as invalid by chain verifier.
    MessageRejectedByChainVerifier,
    /// Message has been treated as invalid by lane verifier.
    MessageRejectedByLaneVerifier,
    /// Submitter has failed to pay fee for delivering and dispatching messages.
    FailedToWithdrawMessageFee,
    /// Invalid messages has been submitted.
    InvalidMessagesProof,
    /// Invalid messages dispatch weight has been declared by the relayer.
    InvalidMessagesDispatchWeight,
    /// Invalid messages delivery proof has been submitted.
    InvalidMessagesDeliveryProof,
}

/// Why a call has been refused.
#[derive(Clone, Copy, PartialEq, Eq, Debug, Structural)]
pub enum DispatchError {
    /// The call has to be signed.
    BadOrigin,
    /// The module has refused the call.
    Module(Error),
}

/// Result of a call.
pub type DispatchResult = Result<(), DispatchError>;

/// Events of the module.
#[derive(Clone, Copy, PartialEq, Eq, Debug, Structural)]
pub enum Event {
    /// Message has been accepted and is waiting to be delivered.
    MessageAccepted(LaneId, MessageNonce),
    /// Messages in the inclusive range have been delivered and processed by the bridged chain.
    MessagesDelivered(LaneId, MessageNonce, MessageNonce),
}

/// Gives the account that has signed the call; a call that nobody has signed is refused.
pub fn ensure_signed<AccountId>(origin: RawOrigin<AccountId>) -> (account: Result<
    AccountId,
    DispatchError,
>)
    ensures
        account == match origin {
            RawOrigin::Signed(account) => Ok::<AccountId, DispatchError>(account),
            _ => Err(DispatchError::BadOrigin),
        },
{
    match origin {
        RawOrigin::Signed(account) => Ok(account),
        _ => Err(DispatchError::BadOrigin),
    }
}

} // verus!
