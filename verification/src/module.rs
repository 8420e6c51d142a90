//! The module itself: the calls that send messages, receive messages, and receive confirmations.
use crate::codec::{DispatchMessage, Encode};
use crate::config::{
    dispatched, rewards_paid, LaneMessageVerifier, MessageDeliveryAndDispatchPayment,
    SourceHeaderChain, TargetHeaderChain, Trait,
};
use crate::confirmation::{deliveries_are_queued, outbound_lane, reward_relayers, rewarded};
use crate::laws::{
    confirmation_keeps_outbound_valid, confirmed_messages_are_queued,
    inbound_valid_rests_on_inbound_lanes, limit_rests_on_inbound_lanes,
    outbound_valid_rests_on_outbound_lanes, proof_keeps_inbound_valid,
    proof_leaves_outbound_alone, proof_stays_within_limit, prune_keeps_outbound_valid,
    report_keeps_unconfirmed_queued, send_keeps_outbound_valid, send_keeps_unconfirmed_queued,
};
use crate::primitives::{
    ensure_signed, DispatchError, DispatchResult, Error, Event, InboundLaneData, InboundLaneState,
    LaneId, Message, MessageContents, MessageData, MessageNonce, OutboundLaneData,
    ProvedLaneMessages, ProvedMessages, RawOrigin, Weight,
};
use crate::proved_messages::{
    all_decoded_from, lanes_in_order, ordered_lanes, verify_and_decode_messages_proof,
};
use crate::receival::{
    dispatch_weight_of_lanes, messages_of_lanes, receive_lanes, total_weight, weighed,
};
use crate::store::{Store, StoreContents};
use vstd::prelude::*;

verus! {

/// Upper bound of delivery transaction weight, without the dispatch.
pub const DELIVERY_BASE_WEIGHT: Weight = 0;

/// Weight of the call that delivers messages whose dispatch takes the weight.
pub fn delivery_weight(dispatch_weight: Weight) -> (weight: Weight)
    ensures
        weight == DELIVERY_BASE_WEIGHT + dispatch_weight,
{
    DELIVERY_BASE_WEIGHT + dispatch_weight
}

/// Turns a refusal into an error of the module; what has not been refused stays as it is.
pub fn refused_as<Value, Refusal>(verdict: Result<Value, Refusal>, error: Error) -> (result: Result<
    Value,
    DispatchError,
>)
    ensures
        result == match verdict {
            Ok(value) => Ok::<Value, DispatchError>(value),
            Err(_) => Err(DispatchError::Module(error)),
        },
{
    match verdict {
        Ok(value) => Ok(value),
        Err(_) => Err(DispatchError::Module(error)),
    }
}

/// The module: its storage, the services that it has been configured with, and the events that it
/// has deposited.
pub struct Module<T: Trait> {
    /// Storage of the module.
    pub store: T::Store,
    /// Deposited events, the latest one at the end.
    pub events: Vec<Event>,
    /// Target header chain.
    pub target_header_chain: T::TargetHeaderChain,
    /// Message payload verifier.
    pub lane_message_verifier: T::LaneMessageVerifier,
    /// Message delivery payment.
    pub payment: T::MessageDeliveryAndDispatchPayment,
    /// Source header chain.
    pub source_header_chain: T::SourceHeaderChain,
    /// Message dispatch.
    pub message_dispatch: T::MessageDispatch,
    /// Maximal number of messages that may be pruned during maintenance. Maintenance occurs
    /// whenever outbound lane is updated - i.e. when new message is sent, or receival is
    /// confirmed. The reason is that if you want to use lane, you should be ready to pay for it.
    pub max_messages_to_prune_at_once: MessageNonce,
    /// Maximal number of "messages" in the 'unconfirmed' state at inbound lane, where a "message"
    /// is a continuous range of messages that a single relayer has delivered.
    pub max_unconfirmed_messages_at_inbound_lane: MessageNonce,
}

impl<T: Trait> Module<T> {
    /// What the storage holds.
    pub open spec fn contents(self) -> StoreContents<T::InboundRelayer, T::OutboundMessageFee> {
        self.store.contents()
    }

    /// No inbound lane has more entries than the module lets be unconfirmed.
    pub open spec fn keeps_limit(self) -> bool {
        self.contents().within_limit(self.max_unconfirmed_messages_at_inbound_lane)
    }

    /// What has always held of the storage still holds: both parts are valid, messages that wait
    /// for a confirmation are queued, and the limit is kept.
    pub open spec fn invariants_kept(before: Self, after: Self) -> bool {
        &&& before.contents().outbound_valid() ==> after.contents().outbound_valid()
        &&& before.contents().unconfirmed_queued() ==> after.contents().unconfirmed_queued()
        &&& before.contents().inbound_valid() ==> after.contents().inbound_valid()
        &&& before.keeps_limit() ==> after.keeps_limit()
    }

    /// The module has the same limits and the same chains and rules as the other one.
    pub open spec fn configured_as(self, other: Self) -> bool {
        &&& self.target_header_chain == other.target_header_chain
        &&& self.lane_message_verifier == other.lane_message_verifier
        &&& self.source_header_chain == other.source_header_chain
        &&& self.max_messages_to_prune_at_once == other.max_messages_to_prune_at_once
        &&& self.max_unconfirmed_messages_at_inbound_lane
            == other.max_unconfirmed_messages_at_inbound_lane
    }

    /// The message has been queued and reported, and the lane has been pruned.
    pub open spec fn message_queued(
        before: Self,
        lane_id: LaneId,
        message: MessageContents<T::OutboundMessageFee>,
        after: Self,
    ) -> bool {
        &&& after.contents() == before.contents().after_send(lane_id, message).after_prune(
            lane_id,
            before.max_messages_to_prune_at_once,
        )
        &&& after.events@ == before.events@.push(
            Event::MessageAccepted(lane_id, before.contents().next_nonce(lane_id) as MessageNonce),
        )
        &&& after.payment == before.payment
        &&& after.message_dispatch == before.message_dispatch
        &&& after.configured_as(before)
    }

    /// How the offer of a message that both verifiers have passed is answered: the submitter is
    /// asked for the fee.
    pub open spec fn answers_verified_offer(
        before: Self,
        submitter: T::AccountId,
        fee: T::OutboundMessageFee,
        result: DispatchResult,
        after: Self,
    ) -> bool {
        exists|
            outcome: Result<
                (),
                <T::MessageDeliveryAndDispatchPayment as MessageDeliveryAndDispatchPayment<
                    T::AccountId,
                    T::OutboundMessageFee,
                >>::Error,
            >,
            payment: T::MessageDeliveryAndDispatchPayment,
        |
            {
                &&& #[trigger] T::MessageDeliveryAndDispatchPayment::fee_payment(
                    before.payment,
                    submitter,
                    fee,
                    outcome,
                    payment,
                )
                &&& result == match outcome {
                    Ok(_) => Ok::<(), DispatchError>(()),
                    Err(_) => Err(DispatchError::Module(Error::FailedToWithdrawMessageFee)),
                }
                &&& after == (Module { payment, ..before })
            }
    }

    /// How the offer of a message that the target chain has passed is answered: the lane verifier
    /// is asked.
    pub open spec fn answers_deliverable_offer(
        before: Self,
        submitter: T::AccountId,
        lane_id: LaneId,
        payload: T::OutboundPayload,
        fee: T::OutboundMessageFee,
        result: DispatchResult,
        after: Self,
    ) -> bool {
        exists|
            verdict: Result<
                (),
                <T::LaneMessageVerifier as LaneMessageVerifier<
                    T::AccountId,
                    T::OutboundPayload,
                    T::OutboundMessageFee,
                >>::Error,
            >,
        |
            {
                &&& #[trigger] before.lane_message_verifier.message_verdict(
                    submitter,
                    fee,
                    lane_id,
                    payload,
                    verdict,
                )
                &&& match verdict {
                    Ok(_) => Self::answers_verified_offer(before, submitter, fee, result, after),
                    Err(_) => {
                        &&& result == Err::<(), DispatchError>(
                            DispatchError::Module(Error::MessageRejectedByLaneVerifier),
                        )
                        &&& after == before
                    },
                }
            }
    }

    /// How the offer of a message is answered: it has to be signed, and the target chain is asked
    /// first.
    pub open spec fn answers_offer(
        before: Self,
        origin: RawOrigin<T::AccountId>,
        lane_id: LaneId,
        payload: T::OutboundPayload,
        fee: T::OutboundMessageFee,
        result: DispatchResult,
        after: Self,
    ) -> bool {
        match origin {
            RawOrigin::Signed(submitter) => exists|
                verdict: Result<
                    (),
                    <T::TargetHeaderChain as TargetHeaderChain<
                        T::OutboundPayload,
                        T::AccountId,
                    >>::Error,
                >,
            |
                {
                    &&& #[trigger] before.target_header_chain.message_verdict(payload, verdict)
                    &&& match verdict {
                        Ok(_) => Self::answers_deliverable_offer(
                            before,
                            submitter,
                            lane_id,
                            payload,
                            fee,
                            result,
                            after,
                        ),
                        Err(_) => {
                            &&& result == Err::<(), DispatchError>(
                                DispatchError::Module(Error::MessageRejectedByChainVerifier),
                            )
                            &&& after == before
                        },
                    }
                },
            _ => {
                &&& result == Err::<(), DispatchError>(DispatchError::BadOrigin)
                &&& after == before
            },
        }
    }

    /// How a message is answered: it is offered first, and if the offer is accepted, the encoded
    /// message is queued.
    pub open spec fn answers_message(
        before: Self,
        origin: RawOrigin<T::AccountId>,
        lane_id: LaneId,
        payload: T::OutboundPayload,
        fee: T::OutboundMessageFee,
        result: DispatchResult,
        after: Self,
    ) -> bool {
        exists|offered: Self|
            {
                &&& #[trigger] Self::answers_offer(
                    before,
                    origin,
                    lane_id,
                    payload,
                    fee,
                    result,
                    offered,
                )
                &&& match result {
                    Ok(_) => exists|bytes: Seq<u8>|
                        {
                            &&& #[trigger] payload.encodes_to(bytes)
                            &&& Self::message_queued(
                                offered,
                                lane_id,
                                MessageContents { payload: bytes, fee },
                                after,
                            )
                        },
                    Err(_) => after == offered,
                }
            }
    }

    /// Deposits an event.
    pub fn deposit_event(&mut self, event: Event)
        ensures
            *final(self) == (Module { events: final(self).events, ..*old(self) }),
            final(self).events@ == old(self).events@.push(event),
    {
        self.events.push(event);
    }

    /// Queues a message whose fee has been paid and reports its nonce.
    pub fn queue_message(
        &mut self,
        lane_id: LaneId,
        message_data: MessageData<T::OutboundMessageFee>,
    ) -> (nonce: MessageNonce)
        requires
            old(self).contents().next_nonce(lane_id) <= MessageNonce::MAX,
        ensures
            nonce == old(self).contents().next_nonce(lane_id),
            nonce == old(self).contents().outbound_lane(lane_id).latest_generated_nonce + 1,
            final(self).events@ == old(self).events@.push(Event::MessageAccepted(lane_id, nonce)),
            Self::message_queued(*old(self), lane_id, message_data@, *final(self)),
            Self::invariants_kept(*old(self), *final(self)),
    {
        proof {
            let contents = self.contents();
            let message = message_data@;
            let max_messages_to_prune = self.max_messages_to_prune_at_once;
            let limit = self.max_unconfirmed_messages_at_inbound_lane;
            let after = contents.after_send(lane_id, message).after_prune(
                lane_id,
                max_messages_to_prune,
            );
            if contents.outbound_valid() {
                send_keeps_outbound_valid(contents, lane_id, message);
                prune_keeps_outbound_valid(
                    contents.after_send(lane_id, message),
                    lane_id,
                    max_messages_to_prune,
                );
            }
            if contents.unconfirmed_queued() {
                send_keeps_unconfirmed_queued(contents, lane_id, message, max_messages_to_prune);
            }
            inbound_valid_rests_on_inbound_lanes(contents, after);
            limit_rests_on_inbound_lanes(contents, after, limit);
        }
        let lane = outbound_lane(lane_id);
        let nonce: MessageNonce = lane.send_message(&mut self.store, message_data);
        let _ = lane.prune_messages(&mut self.store, self.max_messages_to_prune_at_once);
        self.deposit_event(Event::MessageAccepted(lane_id, nonce));
        nonce
    }

    /// Offers a message: asks whether it may be sent, and withdraws its fee. A message whose offer
    /// has been accepted is left to be queued.
    pub fn offer_message(
        &mut self,
        origin: RawOrigin<T::AccountId>,
        lane_id: LaneId,
        payload: &T::OutboundPayload,
        delivery_and_dispatch_fee: &T::OutboundMessageFee,
    ) -> (result: DispatchResult)
        ensures
            Self::answers_offer(
                *old(self),
                origin,
                lane_id,
                *payload,
                *delivery_and_dispatch_fee,
                result,
                *final(self),
            ),
            *final(self) == (Module { payment: final(self).payment, ..*old(self) }),
    {
        let submitter = match ensure_signed(origin) {
            Ok(submitter) => submitter,
            Err(error) => {
                return Err(error);
            },
        };

        // let's first check if message can be delivered to target chain
        let verdict = self.target_header_chain.verify_message(payload);
        if let Err(error) = refused_as(verdict, Error::MessageRejectedByChainVerifier) {
            return Err(error);
        }
        // now let's enforce any additional lane rules
        let verdict = self.lane_message_verifier.verify_message(
            &submitter,
            delivery_and_dispatch_fee,
            &lane_id,
            payload,
        );
        if let Err(error) = refused_as(verdict, Error::MessageRejectedByLaneVerifier) {
            return Err(error);
        }
        // let's withdraw delivery and dispatch fee from submitter
        let outcome = self.payment.pay_delivery_and_dispatch_fee(
            &submitter,
            delivery_and_dispatch_fee,
        );
        refused_as(outcome, Error::FailedToWithdrawMessageFee)
    }

    /// Send message over lane.
    pub fn send_message(
        &mut self,
        origin: RawOrigin<T::AccountId>,
        lane_id: LaneId,
        payload: T::OutboundPayload,
        delivery_and_dispatch_fee: T::OutboundMessageFee,
    ) -> (result: DispatchResult)
        requires
            old(self).contents().next_nonce(lane_id) <= MessageNonce::MAX,
        ensures
            Self::answers_message(
                *old(self),
                origin,
                lane_id,
                payload,
                delivery_and_dispatch_fee,
                result,
                *final(self),
            ),
            Self::invariants_kept(*old(self), *final(self)),
    {
        let result = self.offer_message(origin, lane_id, &payload, &delivery_and_dispatch_fee);
        if result.is_err() {
            return result;
        }
        // save message in outbound storage and emit event
        let encoded = payload.encode();
        let ghost bytes = encoded@;
        assert(payload.encodes_to(bytes));
        let _ = self.queue_message(
            lane_id,
            MessageData { payload: encoded, fee: delivery_and_dispatch_fee },
        );
        result
    }

    /// How messages that a proof delivers are answered. The relayer has to pay for the dispatch
    /// of all of them; then the lanes are taken in the order of their identifiers, of each lane
    /// first its state, then its messages, and the messages that are accepted are dispatched.
    pub open spec fn answers_proved_messages(
        before: Self,
        relayer_id: T::InboundRelayer,
        messages: Map<
            LaneId,
            ProvedLaneMessages<DispatchMessage<T::InboundPayload, T::InboundMessageFee>>,
        >,
        dispatch_weight: Weight,
        result: DispatchResult,
        after: Self,
    ) -> bool {
        let lanes = ordered_lanes(messages);
        let limit = before.max_unconfirmed_messages_at_inbound_lane;
        exists|weights: Seq<Weight>|
            {
                &&& #[trigger] weighed::<T::InboundMessageFee, T::MessageDispatch>(
                    before.message_dispatch,
                    messages_of_lanes(lanes),
                    weights,
                )
                &&& if dispatch_weight < total_weight(weights) {
                    &&& result == Err::<(), DispatchError>(
                        DispatchError::Module(Error::InvalidMessagesDispatchWeight),
                    )
                    &&& after == before
                } else {
                    &&& result == Ok::<(), DispatchError>(())
                    &&& after.contents() == before.contents().after_lanes(limit, relayer_id, lanes)
                    &&& dispatched::<T::InboundMessageFee, T::MessageDispatch>(
                        before.message_dispatch,
                        before.contents().accepted_of_lanes(limit, relayer_id, lanes),
                        after.message_dispatch,
                    )
                    &&& after.events@ == before.events@
                    &&& after.payment == before.payment
                    &&& after.configured_as(before)
                }
            }
    }

    /// How a proof of messages is answered: it has to be signed, the source chain has to pass it,
    /// and the payloads of its messages are decoded.
    pub open spec fn answers_messages_proof(
        before: Self,
        origin: RawOrigin<T::AccountId>,
        relayer_id: T::InboundRelayer,
        messages_proof: <T::SourceHeaderChain as SourceHeaderChain<
            T::InboundMessageFee,
        >>::MessagesProof,
        dispatch_weight: Weight,
        result: DispatchResult,
        after: Self,
    ) -> bool {
        match origin {
            RawOrigin::Signed(_) => exists|
                verdict: Result<
                    ProvedMessages<Message<T::InboundMessageFee>>,
                    <T::SourceHeaderChain as SourceHeaderChain<T::InboundMessageFee>>::Error,
                >,
            |
                {
                    &&& #[trigger] before.source_header_chain.proof_verdict(
                        messages_proof,
                        verdict,
                    )
                    &&& match verdict {
                        Ok(proved) => exists|
                            decoded: Map<
                                LaneId,
                                ProvedLaneMessages<
                                    DispatchMessage<T::InboundPayload, T::InboundMessageFee>,
                                >,
                            >,
                        |
                            {
                                &&& #[trigger] all_decoded_from(proved@, decoded)
                                &&& Self::answers_proved_messages(
                                    before,
                                    relayer_id,
                                    decoded,
                                    dispatch_weight,
                                    result,
                                    after,
                                )
                            },
                        Err(_) => {
                            &&& result == Err::<(), DispatchError>(
                                DispatchError::Module(Error::InvalidMessagesProof),
                            )
                            &&& after == before
                        },
                    }
                },
            _ => {
                &&& result == Err::<(), DispatchError>(DispatchError::BadOrigin)
                &&& after == before
            },
        }
    }

    /// Takes in the messages that a proof delivers, if the declared weight covers their dispatch.
    pub fn receive_proved_messages(
        &mut self,
        relayer_id: T::InboundRelayer,
        messages: ProvedMessages<DispatchMessage<T::InboundPayload, T::InboundMessageFee>>,
        dispatch_weight: Weight,
    ) -> (result: DispatchResult)
        ensures
            Self::answers_proved_messages(
                *old(self),
                relayer_id,
                messages@,
                dispatch_weight,
                result,
                *final(self),
            ),
            Self::invariants_kept(*old(self), *final(self)),
    {
        let lanes = lanes_in_order(messages);

        // verify that relayer is paying actual dispatch weight
        let actual_dispatch_weight = dispatch_weight_of_lanes::<
            T::InboundMessageFee,
            T::MessageDispatch,
        >(&self.message_dispatch, &lanes);
        let is_paid = match actual_dispatch_weight {
            Some(actual_dispatch_weight) => dispatch_weight >= actual_dispatch_weight,
            None => false,
        };
        if !is_paid {
            return Err(DispatchError::Module(Error::InvalidMessagesDispatchWeight));
        }
        // dispatch messages and (optionally) update lane(s) state(s)
        proof {
            let limit = self.max_unconfirmed_messages_at_inbound_lane;
            let contents = self.contents();
            let after = contents.after_lanes(limit, relayer_id, lanes@);
            proof_leaves_outbound_alone(contents, limit, relayer_id, lanes@);
            outbound_valid_rests_on_outbound_lanes(contents, after);
            if contents.inbound_valid() {
                proof_keeps_inbound_valid(contents, limit, relayer_id, lanes@);
            }
            if contents.within_limit(limit) {
                proof_stays_within_limit(contents, limit, relayer_id, lanes@);
            }
        }
        receive_lanes::<T::Store, T::InboundMessageFee, T::MessageDispatch>(
            &mut self.store,
            &mut self.message_dispatch,
            self.max_unconfirmed_messages_at_inbound_lane,
            &relayer_id,
            lanes,
        );
        Ok(())
    }

    /// Receive messages proof from bridged chain.
    pub fn receive_messages_proof(
        &mut self,
        origin: RawOrigin<T::AccountId>,
        relayer_id: T::InboundRelayer,
        messages_proof: <T::SourceHeaderChain as SourceHeaderChain<
            T::InboundMessageFee,
        >>::MessagesProof,
        dispatch_weight: Weight,
    ) -> (result: DispatchResult)
        ensures
            Self::answers_messages_proof(
                *old(self),
                origin,
                relayer_id,
                messages_proof,
                dispatch_weight,
                result,
                *final(self),
            ),
            Self::invariants_kept(*old(self), *final(self)),
    {
        if let Err(error) = ensure_signed(origin) {
            return Err(error);
        }
        // verify messages proof && convert proof into messages
        let verdict = verify_and_decode_messages_proof::<
            T::SourceHeaderChain,
            T::InboundMessageFee,
            T::InboundPayload,
        >(&self.source_header_chain, messages_proof);
        match refused_as(verdict, Error::InvalidMessagesProof) {
            Ok(messages) => self.receive_proved_messages(relayer_id, messages, dispatch_weight),
            Err(error) => Err(error),
        }
    }

    /// The delivery of the messages has been confirmed and reported, their relayers have been
    /// rewarded, and the lane has been pruned. A confirmation that brings no news changes nothing.
    pub open spec fn delivery_confirmed(
        before: Self,
        confirmation_relayer: T::AccountId,
        lane_id: LaneId,
        lane: InboundLaneState<T::AccountId>,
        after: Self,
    ) -> bool {
        let outbound = before.contents().outbound_lane(lane_id);
        let received_range = before.contents().received_range(
            lane_id,
            lane.latest_received_nonce,
        );
        if outbound.can_confirm(lane.latest_received_nonce) {
            &&& after.contents() == before.contents().after_delivery_report(
                lane_id,
                lane.latest_received_nonce,
                before.max_messages_to_prune_at_once,
            )
            &&& after.events@ == before.events@.push(
                Event::MessagesDelivered(lane_id, received_range.0, received_range.1),
            )
            &&& rewards_paid::<
                T::AccountId,
                T::OutboundMessageFee,
                T::MessageDeliveryAndDispatchPayment,
            >(
                before.payment,
                confirmation_relayer,
                before.contents().rewards(lane_id, rewarded(lane.relayers, received_range)),
                after.payment,
            )
            &&& after.message_dispatch == before.message_dispatch
            &&& after.configured_as(before)
        } else {
            after == before
        }
    }

    /// How a proof of deliveries is read: it has to be signed, and the target chain has to pass it.
    /// Gives the relayer that confirms, and the lane with its state at the target chain.
    pub open spec fn reads_delivery_proof(
        self,
        origin: RawOrigin<T::AccountId>,
        delivery_proof: <T::TargetHeaderChain as TargetHeaderChain<
            T::OutboundPayload,
            T::AccountId,
        >>::MessagesDeliveryProof,
        delivery: Result<(T::AccountId, LaneId, InboundLaneData<T::AccountId>), DispatchError>,
    ) -> bool {
        match origin {
            RawOrigin::Signed(confirmation_relayer) => exists|
                verdict: Result<
                    (LaneId, InboundLaneData<T::AccountId>),
                    <T::TargetHeaderChain as TargetHeaderChain<
                        T::OutboundPayload,
                        T::AccountId,
                    >>::Error,
                >,
            |
                {
                    &&& #[trigger] self.target_header_chain.delivery_verdict(
                        delivery_proof,
                        verdict,
                    )
                    &&& delivery == match verdict {
                        Ok((lane_id, lane_data)) => Ok((confirmation_relayer, lane_id, lane_data)),
                        Err(_) => Err(DispatchError::Module(Error::InvalidMessagesDeliveryProof)),
                    }
                },
            _ => delivery == Err::<
                (T::AccountId, LaneId, InboundLaneData<T::AccountId>),
                DispatchError,
            >(DispatchError::BadOrigin),
        }
    }

    /// How a proof of deliveries is answered: once it has been read, the delivery is confirmed.
    pub open spec fn answers_delivery_proof(
        before: Self,
        origin: RawOrigin<T::AccountId>,
        delivery_proof: <T::TargetHeaderChain as TargetHeaderChain<
            T::OutboundPayload,
            T::AccountId,
        >>::MessagesDeliveryProof,
        result: DispatchResult,
        after: Self,
    ) -> bool {
        exists|
            delivery: Result<
                (T::AccountId, LaneId, InboundLaneData<T::AccountId>),
                DispatchError,
            >,
        |
            {
                &&& #[trigger] before.reads_delivery_proof(origin, delivery_proof, delivery)
                &&& match delivery {
                    Ok((confirmation_relayer, lane_id, lane_data)) => {
                        &&& result == Ok::<(), DispatchError>(())
                        &&& Self::delivery_confirmed(
                            before,
                            confirmation_relayer,
                            lane_id,
                            lane_data@,
                            after,
                        )
                    },
                    Err(error) => {
                        &&& result == Err::<(), DispatchError>(error)
                        &&& after == before
                    },
                }
            }
    }

    /// Reads a proof of deliveries.
    pub fn read_delivery_proof(
        &self,
        origin: RawOrigin<T::AccountId>,
        delivery_proof: <T::TargetHeaderChain as TargetHeaderChain<
            T::OutboundPayload,
            T::AccountId,
        >>::MessagesDeliveryProof,
    ) -> (delivery: Result<
        (T::AccountId, LaneId, InboundLaneData<T::AccountId>),
        DispatchError,
    >)
        ensures
            self.reads_delivery_proof(origin, delivery_proof, delivery),
    {
        let confirmation_relayer = match ensure_signed(origin) {
            Ok(confirmation_relayer) => confirmation_relayer,
            Err(error) => {
                return Err(error);
            },
        };
        let verdict = self.target_header_chain.verify_messages_delivery_proof(delivery_proof);
        match refused_as(verdict, Error::InvalidMessagesDeliveryProof) {
            Ok((lane_id, lane_data)) => Ok((confirmation_relayer, lane_id, lane_data)),
            Err(error) => Err(error),
        }
    }

    /// Tells whether every message that is rewarded when the lane is reported in this state is
    /// queued.
    pub fn is_report_covered(
        &self,
        lane_id: LaneId,
        lane_data: &InboundLaneData<T::AccountId>,
    ) -> (is_covered: bool)
        ensures
            is_covered == self.contents().report_covered(lane_id, lane_data@),
    {
        let outbound: OutboundLaneData = self.store.outbound_lane(lane_id);
        let latest_received_nonce: MessageNonce = lane_data.latest_received_nonce;
        if latest_received_nonce <= outbound.latest_received_nonce {
            return true;
        }
        if latest_received_nonce > outbound.latest_generated_nonce {
            return true;
        }
        deliveries_are_queued(
            &self.store,
            lane_id,
            &lane_data.relayers,
            (outbound.latest_received_nonce + 1, latest_received_nonce),
        )
    }

    /// Marks messages as delivered and rewards the relayers that have delivered them.
    pub fn confirm_messages_delivery(
        &mut self,
        confirmation_relayer: &T::AccountId,
        lane_id: LaneId,
        lane_data: InboundLaneData<T::AccountId>,
    )
        requires
            old(self).contents().report_covered(lane_id, lane_data@),
        ensures
            Self::delivery_confirmed(
                *old(self),
                *confirmation_relayer,
                lane_id,
                lane_data@,
                *final(self),
            ),
            Self::invariants_kept(*old(self), *final(self)),
    {
        let ghost contents = self.contents();
        proof {
            let nonce = lane_data.latest_received_nonce;
            let max_messages_to_prune = self.max_messages_to_prune_at_once;
            let limit = self.max_unconfirmed_messages_at_inbound_lane;
            let after = contents.after_delivery_report(lane_id, nonce, max_messages_to_prune);
            if contents.outbound_valid() {
                confirmation_keeps_outbound_valid(contents, lane_id, nonce);
                prune_keeps_outbound_valid(
                    contents.after_confirmation(lane_id, nonce),
                    lane_id,
                    max_messages_to_prune,
                );
            }
            if contents.unconfirmed_queued() {
                report_keeps_unconfirmed_queued(contents, lane_id, nonce, max_messages_to_prune);
            }
            inbound_valid_rests_on_inbound_lanes(contents, after);
            limit_rests_on_inbound_lanes(contents, after, limit);
        }
        // mark messages as delivered
        let lane = outbound_lane(lane_id);
        let received_range = lane.confirm_delivery(
            &mut self.store,
            lane_data.latest_received_nonce,
        );
        if let Some(received_range) = received_range {
            self.deposit_event(
                Event::MessagesDelivered(lane_id, received_range.0, received_range.1),
            );
            // reward relayers that have delivered messages
            reward_relayers(
                &self.store,
                &mut self.payment,
                confirmation_relayer,
                lane_id,
                &lane_data.relayers,
                received_range,
            );
            assert(self.contents().rewards(
                lane_id,
                rewarded(lane_data.relayers@, received_range),
            ) =~= contents.rewards(lane_id, rewarded(lane_data.relayers@, received_range)));
            let _ = lane.prune_messages(&mut self.store, self.max_messages_to_prune_at_once);
        }
    }

    /// Receive messages delivery proof from bridged chain.
    pub fn receive_messages_delivery_proof(
        &mut self,
        origin: RawOrigin<T::AccountId>,
        delivery_proof: <T::TargetHeaderChain as TargetHeaderChain<
            T::OutboundPayload,
            T::AccountId,
        >>::MessagesDeliveryProof,
    ) -> (result: DispatchResult)
        requires
            old(self).contents().unconfirmed_queued(),
        ensures
            Self::answers_delivery_proof(
                *old(self),
                origin,
                delivery_proof,
                result,
                *final(self),
            ),
            Self::invariants_kept(*old(self), *final(self)),
    {
        match self.read_delivery_proof(origin, delivery_proof) {
            Ok((confirmation_relayer, lane_id, lane_data)) => {
                proof {
                    confirmed_messages_are_queued(self.contents(), lane_id, lane_data@);
                }
                self.confirm_messages_delivery(&confirmation_relayer, lane_id, lane_data);
                Ok(())
            },
            Err(error) => Err(error),
        }
    }
}

} // verus!
