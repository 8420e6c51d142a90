//! What the module is configured with: the services of the two chains that it calls, and its
//! configuration trait.
//!
//! Each service says in a relation which outcomes a call may have. An implementation that says
//! no more allows every outcome, so nothing that is proved of the module rests on how a service
//! behaves. The relations fix what the module hands to a service, in which order it makes its
//! calls, and how it answers what comes back.
use crate::codec::{Decode, DispatchMessage, Encode};
use crate::primitives::{
    InboundLaneData, LaneId, Message, Parameter, ProvedMessages, Weight,
};
use crate::store::Store;
use vstd::prelude::*;

verus! {

/// Target chain as it is represented on the source chain.
pub trait TargetHeaderChain<Payload, AccountId> {
    /// Why the target chain refuses a message or a proof.
    type Error;

    /// Proof that messages have been received by the target chain.
    type MessagesDeliveryProof;

    /// Tells whether the verification of the payload may end with the verdict.
    open spec fn message_verdict(
        &self,
        payload: Payload,
        verdict: Result<(), Self::Error>,
    ) -> bool {
        true
    }

    /// Tells whether the verification of the delivery proof may end with the verdict.
    open spec fn delivery_verdict(
        &self,
        proof: Self::MessagesDeliveryProof,
        verdict: Result<(LaneId, InboundLaneData<AccountId>), Self::Error>,
    ) -> bool {
        true
    }

    /// Verifies that the message may be delivered to the target chain.
    fn verify_message(&self, payload: &Payload) -> (verdict: Result<(), Self::Error>)
        ensures
            self.message_verdict(*payload, verdict),
    ;

    /// Verifies the delivery proof and gives the lane with its state at the target chain.
    fn verify_messages_delivery_proof(&self, proof: Self::MessagesDeliveryProof) -> (verdict:
        Result<(LaneId, InboundLaneData<AccountId>), Self::Error>)
        ensures
            self.delivery_verdict(proof, verdict),
    ;
}

/// Rules of a lane on top of those of the target chain.
pub trait LaneMessageVerifier<Submitter, Payload, Fee> {
    /// Why a lane refuses a message.
    type Error;

    /// Tells whether the verification of the message may end with the verdict.
    open spec fn message_verdict(
        &self,
        submitter: Submitter,
        delivery_and_dispatch_fee: Fee,
        lane_id: LaneId,
        payload: Payload,
        verdict: Result<(), Self::Error>,
    ) -> bool {
        true
    }

    /// Verifies that the lane may carry the message.
    fn verify_message(
        &self,
        submitter: &Submitter,
        delivery_and_dispatch_fee: &Fee,
        lane_id: &LaneId,
        payload: &Payload,
    ) -> (verdict: Result<(), Self::Error>)
        ensures
            self.message_verdict(
                *submitter,
                *delivery_and_dispatch_fee,
                *lane_id,
                *payload,
                verdict,
            ),
    ;
}

/// Payments for the delivery and the dispatch of messages.
pub trait MessageDeliveryAndDispatchPayment<AccountId, Balance>: Sized {
    /// Why a fee cannot be withdrawn.
    type Error;

    /// Tells whether asking the submitter for the fee may end with the outcome and lead from
    /// `before` to `after`.
    open spec fn fee_payment(
        before: Self,
        submitter: AccountId,
        fee: Balance,
        outcome: Result<(), Self::Error>,
        after: Self,
    ) -> bool {
        true
    }

    /// Tells whether paying the reward may lead from `before` to `after`.
    open spec fn reward_payment(
        before: Self,
        confirmation_relayer: AccountId,
        relayer: AccountId,
        reward: Balance,
        after: Self,
    ) -> bool {
        true
    }

    /// Withdraws the fee from the submitter.
    fn pay_delivery_and_dispatch_fee(&mut self, submitter: &AccountId, fee: &Balance) -> (outcome:
        Result<(), Self::Error>)
        ensures
            Self::fee_payment(*old(self), *submitter, *fee, outcome, *final(self)),
    ;

    /// Pays the reward for a delivered message to the relayer that has delivered it.
    fn pay_relayer_reward(
        &mut self,
        confirmation_relayer: &AccountId,
        relayer: &AccountId,
        reward: &Balance,
    )
        ensures
            Self::reward_payment(
                *old(self),
                *confirmation_relayer,
                *relayer,
                *reward,
                *final(self),
            ),
    ;
}

/// The rewards are paid one by one, in order, and lead from `before` to `after`.
pub open spec fn rewards_paid<
    AccountId,
    Balance,
    Payment: MessageDeliveryAndDispatchPayment<AccountId, Balance>,
>(
    before: Payment,
    confirmation_relayer: AccountId,
    rewards: Seq<(AccountId, Balance)>,
    after: Payment,
) -> bool
    decreases rewards.len(),
{
    if rewards.len() == 0 {
        before == after
    } else {
        exists|between: Payment|
            {
                &&& rewards_paid::<AccountId, Balance, Payment>(
                    before,
                    confirmation_relayer,
                    rewards.drop_last(),
                    between,
                )
                &&& #[trigger] Payment::reward_payment(
                    between,
                    confirmation_relayer,
                    rewards.last().0,
                    rewards.last().1,
                    after,
                )
            }
    }
}

/// Source chain as it is represented on the target chain.
pub trait SourceHeaderChain<Fee> {
    /// Why the source chain refuses a proof.
    type Error;

    /// Proof that messages have been sent from the source chain.
    type MessagesProof;

    /// Tells whether the verification of the proof may end with the verdict.
    open spec fn proof_verdict(
        &self,
        proof: Self::MessagesProof,
        verdict: Result<ProvedMessages<Message<Fee>>, Self::Error>,
    ) -> bool {
        true
    }

    /// Verifies the proof and gives the messages that it holds.
    fn verify_messages_proof(&self, proof: Self::MessagesProof) -> (verdict: Result<
        ProvedMessages<Message<Fee>>,
        Self::Error,
    >)
        ensures
            self.proof_verdict(proof, verdict),
    ;
}

/// Dispatch of inbound messages.
pub trait MessageDispatch<Fee>: Sized {
    /// Decoded message payload.
    type DispatchPayload: Decode;

    /// Tells whether the dispatch of the message may be said to take the weight.
    open spec fn weighs(
        &self,
        message: DispatchMessage<Self::DispatchPayload, Fee>,
        weight: Weight,
    ) -> bool {
        true
    }

    /// Tells whether the dispatch of the message may lead from `before` to `after`.
    open spec fn dispatches(
        before: Self,
        message: DispatchMessage<Self::DispatchPayload, Fee>,
        after: Self,
    ) -> bool {
        true
    }

    /// Gives the weight of the dispatch of the message.
    fn dispatch_weight(&self, message: &DispatchMessage<Self::DispatchPayload, Fee>) -> (weight:
        Weight)
        ensures
            self.weighs(*message, weight),
    ;

    /// Dispatches the message.
    fn dispatch(&mut self, message: DispatchMessage<Self::DispatchPayload, Fee>)
        ensures
            Self::dispatches(*old(self), message, *final(self)),
    ;
}

/// The messages are dispatched one by one, in order, and lead from `before` to `after`.
pub open spec fn dispatched<Fee, Dispatch: MessageDispatch<Fee>>(
    before: Dispatch,
    messages: Seq<DispatchMessage<Dispatch::DispatchPayload, Fee>>,
    after: Dispatch,
) -> bool
    decreases messages.len(),
{
    if messages.len() == 0 {
        before == after
    } else {
        exists|between: Dispatch|
            {
                &&& dispatched::<Fee, Dispatch>(before, messages.drop_last(), between)
                &&& #[trigger] Dispatch::dispatches(between, messages.last(), after)
            }
    }
}

/// The module configuration trait.
pub trait Trait: Sized {
    /// Identifier of accounts of this chain.
    type AccountId;

    /// Payload type of outbound messages. This payload is dispatched on the bridged chain.
    type OutboundPayload: Encode;

    /// Message fee type of outbound messages. This fee is paid on this chain.
    type OutboundMessageFee: Parameter;

    /// Payload type of inbound messages. This payload is dispatched on this chain.
    type InboundPayload: Decode;

    /// Message fee type of inbound messages. This fee is paid on the bridged chain.
    type InboundMessageFee;

    /// Identifier of relayer that deliver messages to this chain. Relayer reward is paid on the
    /// bridged chain.
    type InboundRelayer: Parameter;

    /// Storage of the module.
    type Store: Store<Relayer = Self::InboundRelayer, Fee = Self::OutboundMessageFee>;

    /// Target header chain.
    type TargetHeaderChain: TargetHeaderChain<Self::OutboundPayload, Self::AccountId>;

    /// Message payload verifier.
    type LaneMessageVerifier: LaneMessageVerifier<
        Self::AccountId,
        Self::OutboundPayload,
        Self::OutboundMessageFee,
    >;

    /// Message delivery payment.
    type MessageDeliveryAndDispatchPayment: MessageDeliveryAndDispatchPayment<
        Self::AccountId,
        Self::OutboundMessageFee,
    >;

    /// Source header chain, as it is represented on target chain.
    type SourceHeaderChain: SourceHeaderChain<Self::InboundMessageFee>;

    /// Message dispatch.
    type MessageDispatch: MessageDispatch<
        Self::InboundMessageFee,
        DispatchPayload = Self::InboundPayload,
    >;
}

} // verus!
