//! What the calls of the module promise.
use crate::codec::{DispatchMessage, Encode};
use crate::config::{
    dispatched, LaneMessageVerifier, MessageDeliveryAndDispatchPayment, MessageDispatch,
    SourceHeaderChain, TargetHeaderChain, Trait,
};
use crate::confirmation::rewarded;
use crate::laws::{delivered_by, proof_leaves_outbound_alone};
use crate::module::Module;
use crate::primitives::{
    DispatchError, DispatchResult, Error, Event, InboundLaneData, InboundLaneState, LaneId,
    Message, MessageContents, MessageKey, MessageNonce, ProvedLaneMessages, ProvedMessages,
    RawOrigin, Weight,
};
use crate::promises::batches::{
    lanes_add_up, lanes_are_taken_in_ascending_order, weight_is_the_sum_of_all,
};
use crate::promises::lanes::{
    entries_follow_on, pruning_takes_the_oldest_received_messages, reports_mark_and_prune,
    reports_of_generated_messages_are_taken, sending_queues_under_the_next_nonce,
    state_update_forgets_confirmed_deliveries, well_formed_lanes_follow_on,
};
use crate::promises::payments::{
    dispatches_one_by_one, entries_are_rewarded_for_what_they_hold, lemma_rewards_in_order,
    lists_all_places, messages_are_dispatched_one_by_one, pays_one_by_one,
    rewards_are_paid_one_by_one, rewards_are_the_queued_fees,
};
use crate::promises::receival::{
    came_in, has_key, keys_ascend, lane_takes_in_state_and_messages,
    lanes_take_in_what_is_theirs, next_messages_all_arrive, takes_in,
};
use crate::proved_messages::{all_decoded_from, ordered_lanes};
use crate::receival::{messages_of_lanes, total_weight, weighed};
use crate::store::StoreContents;
use vstd::prelude::*;

verus! {

/// Nothing of the module's configuration has changed.
pub open spec fn same_configuration<T: Trait>(before: Module<T>, after: Module<T>) -> bool {
    &&& after.target_header_chain == before.target_header_chain
    &&& after.lane_message_verifier == before.lane_message_verifier
    &&& after.source_header_chain == before.source_header_chain
    &&& after.max_messages_to_prune_at_once == before.max_messages_to_prune_at_once
    &&& after.max_unconfirmed_messages_at_inbound_lane
        == before.max_unconfirmed_messages_at_inbound_lane
}

/// How the offer of a message that the target chain has passed is answered.
proof fn lemma_deliverable_offer<T: Trait>(
    before: Module<T>,
    submitter: T::AccountId,
    lane_id: LaneId,
    payload: T::OutboundPayload,
    fee: T::OutboundMessageFee,
    result: DispatchResult,
    offered: Module<T>,
)
    requires
        Module::<T>::answers_deliverable_offer(
            before,
            submitter,
            lane_id,
            payload,
            fee,
            result,
            offered,
        ),
    ensures
        offered == (Module { payment: offered.payment, ..before }),
        ({
            let lane_passes = before.lane_message_verifier.message_verdict(
                submitter,
                fee,
                lane_id,
                payload,
                Ok(()),
            );
            match result {
                Ok(_) => {
                    &&& lane_passes
                    &&& T::MessageDeliveryAndDispatchPayment::fee_payment(
                        before.payment,
                        submitter,
                        fee,
                        Ok(()),
                        offered.payment,
                    )
                },
                Err(DispatchError::Module(Error::MessageRejectedByLaneVerifier)) => {
                    &&& exists|refusal|
                        before.lane_message_verifier.message_verdict(
                            submitter,
                            fee,
                            lane_id,
                            payload,
                            Err(refusal),
                        )
                    &&& offered == before
                },
                Err(DispatchError::Module(Error::FailedToWithdrawMessageFee)) => {
                    &&& lane_passes
                    &&& exists|refusal|
                        T::MessageDeliveryAndDispatchPayment::fee_payment(
                            before.payment,
                            submitter,
                            fee,
                            Err(refusal),
                            offered.payment,
                        )
                },
                _ => false,
            }
        }),
{
    let verdict = choose|verdict|
        {
            &&& #[trigger] before.lane_message_verifier.message_verdict(
                submitter,
                fee,
                lane_id,
                payload,
                verdict,
            )
            &&& match verdict {
                Ok(_) => Module::<T>::answers_verified_offer(
                    before,
                    submitter,
                    fee,
                    result,
                    offered,
                ),
                Err(_) => {
                    &&& result == Err::<(), DispatchError>(
                        DispatchError::Module(Error::MessageRejectedByLaneVerifier),
                    )
                    &&& offered == before
                },
            }
        };
    match verdict {
        Ok(passed) => {
            assert(passed == ());
            let (outcome, payment) = choose|
                outcome: Result<
                    (),
                    <T::MessageDeliveryAndDispatchPayment as MessageDeliveryAndDispatchPayment<
                        T::AccountId,
                        T::OutboundMessageFee,
                    >>::Error,
                >,
                payment: T::MessageDeliveryAndDispatchPayment,
            |
                {
                    &&& #[trigger] T::MessageDeliveryAndDispatchPayment::fee_payment(
                        before.payment,
                        submitter,
                        fee,
                        outcome,
                        payment,
                    )
                    &&& result == match outcome {
                        Ok(_) => Ok::<(), DispatchError>(()),
                        Err(_) => Err(DispatchError::Module(Error::FailedToWithdrawMessageFee)),
                    }
                    &&& offered == (Module { payment, ..before })
                };
            match outcome {
                Ok(paid) => {
                    assert(paid == ());
                },
                Err(refusal) => {
                    assert(T::MessageDeliveryAndDispatchPayment::fee_payment(
                        before.payment,
                        submitter,
                        fee,
                        Err(refusal),
                        payment,
                    ));
                },
            }
        },
        Err(refusal) => {
            assert(before.lane_message_verifier.message_verdict(
                submitter,
                fee,
                lane_id,
                payload,
                Err(refusal),
            ));
        },
    }
}

/// A message is answered as the services say, asked in this order: the target chain, the lane
/// verifier, the payment. The first one that refuses decides on the error; a refusal leaves
/// everything as it is but the payment that has been asked. Without a signature nobody is asked.
pub proof fn messages_are_answered_as_the_services_say<T: Trait>(
    before: Module<T>,
    origin: RawOrigin<T::AccountId>,
    lane_id: LaneId,
    payload: T::OutboundPayload,
    fee: T::OutboundMessageFee,
    result: DispatchResult,
    after: Module<T>,
)
    requires
        Module::<T>::answers_message(before, origin, lane_id, payload, fee, result, after),
    ensures
        result == Err::<(), DispatchError>(DispatchError::BadOrigin) <==> !(origin is Signed),
        origin is Signed ==> {
            let submitter = origin->Signed_0;
            let chain_passes = before.target_header_chain.message_verdict(payload, Ok(()));
            let lane_passes = before.lane_message_verifier.message_verdict(
                submitter,
                fee,
                lane_id,
                payload,
                Ok(()),
            );
            match result {
                Ok(_) => {
                    &&& chain_passes
                    &&& lane_passes
                    &&& T::MessageDeliveryAndDispatchPayment::fee_payment(
                        before.payment,
                        submitter,
                        fee,
                        Ok(()),
                        after.payment,
                    )
                },
                Err(DispatchError::Module(Error::MessageRejectedByChainVerifier)) => {
                    &&& exists|refusal|
                        before.target_header_chain.message_verdict(payload, Err(refusal))
                    &&& after == before
                },
                Err(DispatchError::Module(Error::MessageRejectedByLaneVerifier)) => {
                    &&& chain_passes
                    &&& exists|refusal|
                        before.lane_message_verifier.message_verdict(
                            submitter,
                            fee,
                            lane_id,
                            payload,
                            Err(refusal),
                        )
                    &&& after == before
                },
                Err(DispatchError::Module(Error::FailedToWithdrawMessageFee)) => {
                    &&& chain_passes
                    &&& lane_passes
                    &&& exists|refusal|
                        T::MessageDeliveryAndDispatchPayment::fee_payment(
                            before.payment,
                            submitter,
                            fee,
                            Err(refusal),
                            after.payment,
                        )
                    &&& after == (Module { payment: after.payment, ..before })
                },
                _ => false,
            }
        },
        result is Err && !(origin is Signed) ==> after == before,
{
    let offered = choose|offered: Module<T>|
        {
            &&& #[trigger] Module::<T>::answers_offer(
                before,
                origin,
                lane_id,
                payload,
                fee,
                result,
                offered,
            )
            &&& result is Err ==> after == offered
            &&& result is Ok ==> after.payment == offered.payment
        };
    if let RawOrigin::Signed(submitter) = origin {
        let verdict = choose|verdict|
            {
                &&& #[trigger] before.target_header_chain.message_verdict(payload, verdict)
                &&& match verdict {
                    Ok(_) => Module::<T>::answers_deliverable_offer(
                        before,
                        submitter,
                        lane_id,
                        payload,
                        fee,
                        result,
                        offered,
                    ),
                    Err(_) => {
                        &&& result == Err::<(), DispatchError>(
                            DispatchError::Module(Error::MessageRejectedByChainVerifier),
                        )
                        &&& offered == before
                    },
                }
            };
        match verdict {
            Ok(passed) => {
                assert(passed == ());
                lemma_deliverable_offer(
                    before,
                    submitter,
                    lane_id,
                    payload,
                    fee,
                    result,
                    offered,
                );
            },
            Err(refusal) => {
                assert(before.target_header_chain.message_verdict(payload, Err(refusal)));
            },
        }
    }
}

/// A message that is sent is queued and reported under one and the same nonce: exactly one event is
/// added, and it names the nonce after the latest one of the lane, under which the queue now holds
/// the encoded payload and the fee. Of the other messages only the oldest ones of the lane that have
/// been received are pruned, as many as may be. All else stays as it is.
pub proof fn sent_message_is_queued_as_reported<T: Trait>(
    before: Module<T>,
    origin: RawOrigin<T::AccountId>,
    lane_id: LaneId,
    payload: T::OutboundPayload,
    fee: T::OutboundMessageFee,
    after: Module<T>,
)
    requires
        Module::<T>::answers_message(
            before,
            origin,
            lane_id,
            payload,
            fee,
            Ok::<(), DispatchError>(()),
            after,
        ),
        before.contents().outbound_lane(lane_id).latest_received_nonce
            <= before.contents().outbound_lane(lane_id).latest_generated_nonce < MessageNonce::MAX,
    ensures
        ({
            let lane = before.contents().outbound_lane(lane_id);
            let after_lane = after.contents().outbound_lane(lane_id);
            let nonce = (lane.latest_generated_nonce + 1) as MessageNonce;
            let key = MessageKey { lane_id, nonce };
            let oldest = after_lane.oldest_unpruned_nonce;
            let taken = oldest - lane.oldest_unpruned_nonce;
            &&& after.events@.len() == before.events@.len() + 1
            &&& after.events@.take(before.events@.len() as int) == before.events@
            &&& after.events@[before.events@.len() as int] == Event::MessageAccepted(
                lane_id,
                nonce,
            )
            &&& after.contents().outbound_messages.contains_key(key)
            &&& payload.encodes_to(after.contents().outbound_messages[key].payload)
            &&& after.contents().outbound_messages[key].fee == fee
            &&& after_lane.latest_generated_nonce == nonce
            &&& after_lane.latest_received_nonce == lane.latest_received_nonce
            &&& 0 <= taken <= before.max_messages_to_prune_at_once
            &&& taken > 0 ==> oldest <= lane.latest_received_nonce + 1
            &&& taken < before.max_messages_to_prune_at_once ==> oldest
                > lane.latest_received_nonce
            &&& forall|other: MessageKey|
                other != key ==> #[trigger] after.contents().outbound_message(other) == if
                other.lane_id == lane_id && lane.oldest_unpruned_nonce <= other.nonce < oldest {
                    None
                } else {
                    before.contents().outbound_message(other)
                }
            &&& forall|id: LaneId|
                id != lane_id ==> #[trigger] after.contents().outbound_lane(id)
                    == before.contents().outbound_lane(id)
            &&& after.contents().inbound_lanes == before.contents().inbound_lanes
            &&& after.message_dispatch == before.message_dispatch
            &&& same_configuration(before, after)
        }),
{
    let offered = choose|offered: Module<T>|
        {
            &&& #[trigger] Module::<T>::answers_offer(
                before,
                origin,
                lane_id,
                payload,
                fee,
                Ok::<(), DispatchError>(()),
                offered,
            )
            &&& exists|bytes: Seq<u8>|
                {
                    &&& #[trigger] payload.encodes_to(bytes)
                    &&& Module::<T>::message_queued(
                        offered,
                        lane_id,
                        MessageContents { payload: bytes, fee },
                        after,
                    )
                }
        };
    let bytes = choose|bytes: Seq<u8>|
        {
            &&& #[trigger] payload.encodes_to(bytes)
            &&& Module::<T>::message_queued(
                offered,
                lane_id,
                MessageContents { payload: bytes, fee },
                after,
            )
        };
    assert(offered == (Module { payment: offered.payment, ..before }));
    let message = MessageContents { payload: bytes, fee };
    let contents = before.contents();
    let sent = contents.after_send(lane_id, message);
    sending_queues_under_the_next_nonce(contents, lane_id, message);
    pruning_takes_the_oldest_received_messages(
        sent,
        lane_id,
        before.max_messages_to_prune_at_once,
    );
    let lane = contents.outbound_lane(lane_id);
    let nonce = (lane.latest_generated_nonce + 1) as MessageNonce;
    let key = MessageKey { lane_id, nonce };
    assert(sent.outbound_message(key) == Some(message));
    assert(after.contents().outbound_message(key) == Some(message));
    assert(after.events@.take(before.events@.len() as int) =~= before.events@);
    assert forall|id: LaneId| id != lane_id implies #[trigger] after.contents().outbound_lane(id)
        == before.contents().outbound_lane(id) by {
        assert(sent.outbound_lane(id) == contents.outbound_lane(id));
    }
    assert forall|other: MessageKey|
        other != key implies #[trigger] after.contents().outbound_message(other) == if other.lane_id
        == lane_id && lane.oldest_unpruned_nonce <= other.nonce
        < after.contents().outbound_lane(lane_id).oldest_unpruned_nonce {
        None
    } else {
        before.contents().outbound_message(other)
    } by {
        assert(sent.outbound_message(other) == contents.outbound_message(other));
    }
}

/// What has been reported is true: a message that has been reported as accepted has been generated,
/// and messages that have been reported as delivered have been received.
pub open spec fn reports_are_true<T: Trait>(module: Module<T>) -> bool {
    forall|i: int|
        0 <= i < module.events@.len() ==> match #[trigger] module.events@[i] {
            Event::MessageAccepted(lane_id, nonce) => nonce <= module.contents().outbound_lane(
                lane_id,
            ).latest_generated_nonce,
            Event::MessagesDelivered(lane_id, begin, end) => begin <= end
                <= module.contents().outbound_lane(lane_id).latest_received_nonce,
        }
}

/// No nonce of a lane is reported twice: the nonce of a message that is sent is greater than all
/// that have been reported for the lane before. What has been reported stays true.
pub proof fn reported_nonces_are_new<T: Trait>(
    before: Module<T>,
    origin: RawOrigin<T::AccountId>,
    lane_id: LaneId,
    payload: T::OutboundPayload,
    fee: T::OutboundMessageFee,
    after: Module<T>,
)
    requires
        Module::<T>::answers_message(
            before,
            origin,
            lane_id,
            payload,
            fee,
            Ok::<(), DispatchError>(()),
            after,
        ),
        before.contents().outbound_lane(lane_id).latest_received_nonce
            <= before.contents().outbound_lane(lane_id).latest_generated_nonce < MessageNonce::MAX,
        reports_are_true(before),
    ensures
        reports_are_true(after),
        after.events@.len() == before.events@.len() + 1,
        match after.events@[before.events@.len() as int] {
            Event::MessageAccepted(id, nonce) => {
                &&& id == lane_id
                &&& forall|i: int|
                    0 <= i < before.events@.len() ==> match #[trigger] before.events@[i] {
                        Event::MessageAccepted(other_id, other) => other_id == lane_id ==> other
                            < nonce,
                        _ => true,
                    }
            },
            _ => false,
        },
{
    sent_message_is_queued_as_reported(before, origin, lane_id, payload, fee, after);
    assert forall|i: int| 0 <= i < after.events@.len() implies match #[trigger] after.events@[i] {
        Event::MessageAccepted(id, nonce) => nonce <= after.contents().outbound_lane(
            id,
        ).latest_generated_nonce,
        Event::MessagesDelivered(id, begin, end) => begin <= end
            <= after.contents().outbound_lane(id).latest_received_nonce,
    } by {
        if i < before.events@.len() {
            assert(after.events@[i] == after.events@.take(before.events@.len() as int)[i]);
            assert(before.events@[i] == after.events@[i]);
            match after.events@[i] {
                Event::MessageAccepted(id, nonce) => {
                    if id != lane_id {
                        assert(after.contents().outbound_lane(id)
                            == before.contents().outbound_lane(id));
                    }
                },
                Event::MessagesDelivered(id, begin, end) => {
                    if id != lane_id {
                        assert(after.contents().outbound_lane(id)
                            == before.contents().outbound_lane(id));
                    }
                },
            }
        }
    }
}

/// What a report of deliveries does. A report of any nonce after the latest received and up to the
/// latest generated one is taken: the nonce becomes the latest received one, exactly one event is
/// added, and it names the range of the messages that the report brings; of the lane's messages only
/// the oldest ones that have been received are pruned, as many as may be. Any other report changes
/// nothing.
pub proof fn delivery_report_is_marked_and_reported<T: Trait>(
    before: Module<T>,
    confirmation_relayer: T::AccountId,
    lane_id: LaneId,
    reported: InboundLaneState<T::AccountId>,
    after: Module<T>,
)
    requires
        Module::<T>::delivery_confirmed(before, confirmation_relayer, lane_id, reported, after),
    ensures
        ({
            let lane = before.contents().outbound_lane(lane_id);
            let after_lane = after.contents().outbound_lane(lane_id);
            let nonce = reported.latest_received_nonce;
            let oldest = after_lane.oldest_unpruned_nonce;
            let taken = oldest - lane.oldest_unpruned_nonce;
            if lane.latest_received_nonce < nonce <= lane.latest_generated_nonce {
                &&& after_lane.latest_received_nonce == nonce
                &&& after_lane.latest_generated_nonce == lane.latest_generated_nonce
                &&& after.events@.len() == before.events@.len() + 1
                &&& after.events@.take(before.events@.len() as int) == before.events@
                &&& after.events@[before.events@.len() as int] == Event::MessagesDelivered(
                    lane_id,
                    (lane.latest_received_nonce + 1) as MessageNonce,
                    nonce,
                )
                &&& 0 <= taken <= before.max_messages_to_prune_at_once
                &&& taken > 0 ==> oldest <= nonce + 1
                &&& taken < before.max_messages_to_prune_at_once ==> oldest > nonce || oldest
                    == MessageNonce::MAX
                &&& forall|key: MessageKey| #[trigger]
                    after.contents().outbound_message(key) == if key.lane_id == lane_id
                        && lane.oldest_unpruned_nonce <= key.nonce < oldest {
                        None
                    } else {
                        before.contents().outbound_message(key)
                    }
                &&& forall|id: LaneId|
                    id != lane_id ==> #[trigger] after.contents().outbound_lane(id)
                        == before.contents().outbound_lane(id)
                &&& after.contents().inbound_lanes == before.contents().inbound_lanes
                &&& after.message_dispatch == before.message_dispatch
                &&& same_configuration(before, after)
            } else {
                after == before
            }
        }),
        reports_are_true(before) ==> reports_are_true(after),
{
    let contents = before.contents();
    let nonce = reported.latest_received_nonce;
    reports_of_generated_messages_are_taken(contents, lane_id, nonce);
    reports_mark_and_prune(contents, lane_id, nonce, before.max_messages_to_prune_at_once);
    let lane = contents.outbound_lane(lane_id);
    if lane.latest_received_nonce < nonce <= lane.latest_generated_nonce {
        assert(after.events@.take(before.events@.len() as int) =~= before.events@);
        if reports_are_true(before) {
            assert forall|i: int| 0 <= i < after.events@.len() implies match
            #[trigger] after.events@[i] {
                Event::MessageAccepted(id, n) => n <= after.contents().outbound_lane(
                    id,
                ).latest_generated_nonce,
                Event::MessagesDelivered(id, begin, end) => begin <= end
                    <= after.contents().outbound_lane(id).latest_received_nonce,
            } by {
                if i < before.events@.len() {
                    assert(before.events@[i] == after.events@[i]);
                    match after.events@[i] {
                        Event::MessageAccepted(id, n) => {
                            if id != lane_id {
                                assert(after.contents().outbound_lane(id)
                                    == contents.outbound_lane(id));
                            }
                        },
                        Event::MessagesDelivered(id, begin, end) => {
                            if id != lane_id {
                                assert(after.contents().outbound_lane(id)
                                    == contents.outbound_lane(id));
                            }
                        },
                    }
                }
            }
        }
    }
}

/// A report that is taken pays for each message that it brings and an entry holds, once and nothing
/// else: the fee that is queued for the message, to the relayer of the entry, entry by entry and
/// nonce by nonce.
pub proof fn delivery_report_pays_what_entries_hold<T: Trait>(
    before: Module<T>,
    confirmation_relayer: T::AccountId,
    lane_id: LaneId,
    reported: InboundLaneState<T::AccountId>,
    after: Module<T>,
) -> (paid: (Seq<(int, MessageNonce)>, Seq<T::MessageDeliveryAndDispatchPayment>))
    requires
        Module::<T>::delivery_confirmed(before, confirmation_relayer, lane_id, reported, after),
        before.contents().outbound_lane(lane_id).latest_received_nonce
            < reported.latest_received_nonce,
        reported.latest_received_nonce <= before.contents().outbound_lane(
            lane_id,
        ).latest_generated_nonce,
    ensures
        ({
            let lane = before.contents().outbound_lane(lane_id);
            let (places, path) = paid;
            &&& lists_all_places(
                places,
                reported.relayers,
                (
                    (lane.latest_received_nonce + 1) as MessageNonce,
                    reported.latest_received_nonce,
                ),
            )
            &&& path.len() == places.len() + 1
            &&& path[0] == before.payment
            &&& path[places.len() as int] == after.payment
            &&& forall|k: int|
                0 <= k < places.len() ==> {
                    let (i, nonce) = #[trigger] places[k];
                    T::MessageDeliveryAndDispatchPayment::reward_payment(
                        path[k],
                        confirmation_relayer,
                        reported.relayers[i].2,
                        before.contents().outbound_messages[MessageKey { lane_id, nonce }].fee,
                        path[k + 1],
                    )
                }
        }),
{
    let contents = before.contents();
    reports_of_generated_messages_are_taken(contents, lane_id, reported.latest_received_nonce);
    let range = contents.received_range(lane_id, reported.latest_received_nonce);
    let deliveries = rewarded(reported.relayers, range);
    let rewards = contents.rewards(lane_id, deliveries);
    let places = entries_are_rewarded_for_what_they_hold(reported.relayers, range);
    rewards_are_the_queued_fees(contents, lane_id, deliveries);
    rewards_are_paid_one_by_one::<
        T::AccountId,
        T::OutboundMessageFee,
        T::MessageDeliveryAndDispatchPayment,
    >(before.payment, confirmation_relayer, rewards, after.payment);
    let path = choose|path: Seq<T::MessageDeliveryAndDispatchPayment>| #[trigger]
        pays_one_by_one::<
            T::AccountId,
            T::OutboundMessageFee,
            T::MessageDeliveryAndDispatchPayment,
        >(path, before.payment, confirmation_relayer, rewards, after.payment);
    assert forall|k: int| 0 <= k < places.len() implies {
        let (i, nonce) = #[trigger] places[k];
        T::MessageDeliveryAndDispatchPayment::reward_payment(
            path[k],
            confirmation_relayer,
            reported.relayers[i].2,
            before.contents().outbound_messages[MessageKey { lane_id, nonce }].fee,
            path[k + 1],
        )
    } by {
        assert(deliveries[k] == (reported.relayers[places[k].0].2, places[k].1));
        assert(rewards[k] == (
            deliveries[k].0,
            contents.outbound_messages[MessageKey { lane_id, nonce: deliveries[k].1 }].fee,
        ));
    }
    (places, path)
}

/// Payment `k` pays the fee to the relayer whose entry holds the nonce.
pub open spec fn pays_holder<T: Trait>(
    path: Seq<T::MessageDeliveryAndDispatchPayment>,
    k: int,
    confirmation_relayer: T::AccountId,
    reported: InboundLaneState<T::AccountId>,
    nonce: MessageNonce,
    fee: T::OutboundMessageFee,
) -> bool {
    exists|relayer: T::AccountId|
        {
            &&& #[trigger] delivered_by(reported, nonce, relayer)
            &&& T::MessageDeliveryAndDispatchPayment::reward_payment(
                path[k],
                confirmation_relayer,
                relayer,
                fee,
                path[k + 1],
            )
        }
}

/// A report that is taken and whose entries follow on, from no later than the first message that it
/// brings, pays for every message that it brings, once, in the order of the nonces, and nothing
/// else: the fee that is queued under the nonce, to the relayer whose entry holds the nonce.
pub proof fn delivery_report_pays_every_message_once<T: Trait>(
    before: Module<T>,
    confirmation_relayer: T::AccountId,
    lane_id: LaneId,
    reported: InboundLaneState<T::AccountId>,
    after: Module<T>,
) -> (path: Seq<T::MessageDeliveryAndDispatchPayment>)
    requires
        Module::<T>::delivery_confirmed(before, confirmation_relayer, lane_id, reported, after),
        before.contents().outbound_lane(lane_id).latest_received_nonce
            < reported.latest_received_nonce,
        reported.latest_received_nonce <= before.contents().outbound_lane(
            lane_id,
        ).latest_generated_nonce,
        entries_follow_on(reported),
        reported.relayers.len() > 0,
        reported.relayers[0].0 <= before.contents().outbound_lane(lane_id).latest_received_nonce + 1,
    ensures
        ({
            let lane = before.contents().outbound_lane(lane_id);
            let count = reported.latest_received_nonce - lane.latest_received_nonce;
            &&& path.len() == count + 1
            &&& path[0] == before.payment
            &&& path[count] == after.payment
            &&& forall|k: int|
                0 <= k < count ==> #[trigger] pays_holder::<T>(
                    path,
                    k,
                    confirmation_relayer,
                    reported,
                    (lane.latest_received_nonce + 1 + k) as MessageNonce,
                    before.contents().outbound_messages[
                        MessageKey {
                            lane_id,
                            nonce: (lane.latest_received_nonce + 1 + k) as MessageNonce,
                        }
                    ].fee,
                )
        }),
{
    let contents = before.contents();
    let lane = contents.outbound_lane(lane_id);
    let begin = (lane.latest_received_nonce + 1) as MessageNonce;
    let end = reported.latest_received_nonce;
    let count = end - lane.latest_received_nonce;
    reports_of_generated_messages_are_taken(contents, lane_id, end);
    let range = contents.received_range(lane_id, end);
    let deliveries = rewarded(reported.relayers, range);
    let rewards = contents.rewards(lane_id, deliveries);
    lemma_rewards_in_order(reported, begin, reported.relayers.len() as int);
    assert(reported.relayers.take(reported.relayers.len() as int) =~= reported.relayers);
    assert(range == (begin, end));
    rewards_are_the_queued_fees(contents, lane_id, deliveries);
    rewards_are_paid_one_by_one::<
        T::AccountId,
        T::OutboundMessageFee,
        T::MessageDeliveryAndDispatchPayment,
    >(before.payment, confirmation_relayer, rewards, after.payment);
    let path = choose|path: Seq<T::MessageDeliveryAndDispatchPayment>| #[trigger]
        pays_one_by_one::<
            T::AccountId,
            T::OutboundMessageFee,
            T::MessageDeliveryAndDispatchPayment,
        >(path, before.payment, confirmation_relayer, rewards, after.payment);
    assert forall|k: int| 0 <= k < count implies #[trigger] pays_holder::<T>(
        path,
        k,
        confirmation_relayer,
        reported,
        (lane.latest_received_nonce + 1 + k) as MessageNonce,
        before.contents().outbound_messages[
            MessageKey { lane_id, nonce: (lane.latest_received_nonce + 1 + k) as MessageNonce }
        ].fee,
    ) by {
        let nonce = (lane.latest_received_nonce + 1 + k) as MessageNonce;
        assert(deliveries[k].1 == nonce);
        assert(delivered_by(reported, nonce, deliveries[k].0));
        assert(rewards[k] == (
            deliveries[k].0,
            contents.outbound_messages[MessageKey { lane_id, nonce }].fee,
        ));
    }
    path
}

/// A proof of deliveries is answered as the target chain says: without a signature it is not asked;
/// if it refuses, that is the error, and nothing changes; if it passes the proof, the state of the
/// lane that it gives is confirmed in the name of the one who has signed.
pub proof fn delivery_proofs_are_answered_as_the_chain_says<T: Trait>(
    before: Module<T>,
    origin: RawOrigin<T::AccountId>,
    delivery_proof: <T::TargetHeaderChain as TargetHeaderChain<
        T::OutboundPayload,
        T::AccountId,
    >>::MessagesDeliveryProof,
    result: DispatchResult,
    after: Module<T>,
)
    requires
        Module::<T>::answers_delivery_proof(before, origin, delivery_proof, result, after),
    ensures
        match result {
            Ok(_) => {
                &&& origin is Signed
                &&& exists|lane_id: LaneId, lane_data: InboundLaneData<T::AccountId>|
                    {
                        &&& #[trigger] before.target_header_chain.delivery_verdict(
                            delivery_proof,
                            Ok((lane_id, lane_data)),
                        )
                        &&& Module::<T>::delivery_confirmed(
                            before,
                            origin->Signed_0,
                            lane_id,
                            lane_data@,
                            after,
                        )
                    }
            },
            Err(DispatchError::BadOrigin) => !(origin is Signed) && after == before,
            Err(DispatchError::Module(Error::InvalidMessagesDeliveryProof)) => {
                &&& origin is Signed
                &&& exists|refusal|
                    before.target_header_chain.delivery_verdict(delivery_proof, Err(refusal))
                &&& after == before
            },
            _ => false,
        },
{
    let delivery = choose|
        delivery: Result<(T::AccountId, LaneId, InboundLaneData<T::AccountId>), DispatchError>,
    |
        {
            &&& #[trigger] before.reads_delivery_proof(origin, delivery_proof, delivery)
            &&& match delivery {
                Ok((confirmation_relayer, lane_id, lane_data)) => {
                    &&& result == Ok::<(), DispatchError>(())
                    &&& Module::<T>::delivery_confirmed(
                        before,
                        confirmation_relayer,
                        lane_id,
                        lane_data@,
                        after,
                    )
                },
                Err(error) => {
                    &&& result == Err::<(), DispatchError>(error)
                    &&& after == before
                },
            }
        };
    if let RawOrigin::Signed(signer) = origin {
        let verdict = choose|
            verdict: Result<
                (LaneId, InboundLaneData<T::AccountId>),
                <T::TargetHeaderChain as TargetHeaderChain<
                    T::OutboundPayload,
                    T::AccountId,
                >>::Error,
            >,
        |
            {
                &&& #[trigger] before.target_header_chain.delivery_verdict(delivery_proof, verdict)
                &&& delivery == match verdict {
                    Ok((lane_id, lane_data)) => Ok((signer, lane_id, lane_data)),
                    Err(_) => Err(DispatchError::Module(Error::InvalidMessagesDeliveryProof)),
                }
            };
        match verdict {
            Ok(given) => {
                let (lane_id, lane_data) = given;
                assert(given == (lane_id, lane_data));
                assert(before.target_header_chain.delivery_verdict(
                    delivery_proof,
                    Ok((lane_id, lane_data)),
                ));
            },
            Err(refusal) => {
                assert(before.target_header_chain.delivery_verdict(delivery_proof, Err(refusal)));
            },
        }
    }
}

/// A proof of deliveries that the target chain can only pass with this state of this lane, where the
/// state is news and its entries follow on, pays for every message that it brings, once, in the
/// order of the nonces: the fee that is queued under the nonce, to the relayer whose entry holds
/// the nonce. The messages are marked and reported.
pub proof fn delivery_proof_pays_every_message_once<T: Trait>(
    before: Module<T>,
    confirmation_relayer: T::AccountId,
    delivery_proof: <T::TargetHeaderChain as TargetHeaderChain<
        T::OutboundPayload,
        T::AccountId,
    >>::MessagesDeliveryProof,
    lane_id: LaneId,
    lane_data: InboundLaneData<T::AccountId>,
    result: DispatchResult,
    after: Module<T>,
) -> (path: Seq<T::MessageDeliveryAndDispatchPayment>)
    requires
        Module::<T>::answers_delivery_proof(
            before,
            RawOrigin::Signed(confirmation_relayer),
            delivery_proof,
            result,
            after,
        ),
        forall|verdict| #[trigger]
            before.target_header_chain.delivery_verdict(delivery_proof, verdict) ==> verdict == Ok::<
                (LaneId, InboundLaneData<T::AccountId>),
                <T::TargetHeaderChain as TargetHeaderChain<
                    T::OutboundPayload,
                    T::AccountId,
                >>::Error,
            >((lane_id, lane_data)),
        before.contents().outbound_lane(lane_id).latest_received_nonce
            < lane_data.latest_received_nonce,
        lane_data.latest_received_nonce <= before.contents().outbound_lane(
            lane_id,
        ).latest_generated_nonce,
        lane_data@.well_formed(),
        lane_data.latest_confirmed_nonce <= before.contents().outbound_lane(
            lane_id,
        ).latest_received_nonce,
    ensures
        result is Ok,
        after.contents().outbound_lane(lane_id).latest_received_nonce
            == lane_data.latest_received_nonce,
        after.events@ == before.events@.push(
            Event::MessagesDelivered(
                lane_id,
                (before.contents().outbound_lane(lane_id).latest_received_nonce
                    + 1) as MessageNonce,
                lane_data.latest_received_nonce,
            ),
        ),
        ({
            let lane = before.contents().outbound_lane(lane_id);
            let count = lane_data.latest_received_nonce - lane.latest_received_nonce;
            &&& path.len() == count + 1
            &&& path[0] == before.payment
            &&& path[count] == after.payment
            &&& forall|k: int|
                0 <= k < count ==> #[trigger] pays_holder::<T>(
                    path,
                    k,
                    confirmation_relayer,
                    lane_data@,
                    (lane.latest_received_nonce + 1 + k) as MessageNonce,
                    before.contents().outbound_messages[
                        MessageKey {
                            lane_id,
                            nonce: (lane.latest_received_nonce + 1 + k) as MessageNonce,
                        }
                    ].fee,
                )
        }),
{
    delivery_proofs_are_answered_as_the_chain_says(
        before,
        RawOrigin::Signed(confirmation_relayer),
        delivery_proof,
        result,
        after,
    );
    delivery_report_is_marked_and_reported(
        before,
        confirmation_relayer,
        lane_id,
        lane_data@,
        after,
    );
    assert(after.events@ =~= before.events@.push(
        Event::MessagesDelivered(
            lane_id,
            (before.contents().outbound_lane(lane_id).latest_received_nonce + 1) as MessageNonce,
            lane_data.latest_received_nonce,
        ),
    )) by {
        let n = before.events@.len() as int;
        assert forall|i: int| 0 <= i < n implies after.events@[i] == before.events@[i] by {
            assert(after.events@.take(n)[i] == after.events@[i]);
        }
    }
    well_formed_lanes_follow_on(lane_data@);
    delivery_report_pays_every_message_once(
        before,
        confirmation_relayer,
        lane_id,
        lane_data@,
        after,
    )
}

/// The messages of a proof may be said to take these weights, one by one.
pub open spec fn each_weighs<Fee, Dispatch: MessageDispatch<Fee>>(
    dispatch: Dispatch,
    messages: Seq<DispatchMessage<Dispatch::DispatchPayload, Fee>>,
    weights: Seq<Weight>,
) -> bool {
    &&& weights.len() == messages.len()
    &&& forall|i: int|
        0 <= i < messages.len() ==> dispatch.weighs(#[trigger] messages[i], weights[i])
}

/// The messages of a proof are refused exactly if the declared weight is less than the sum of the
/// weights of all of its messages, however many there are; then nothing changes.
pub proof fn every_message_of_a_proof_is_weighed<T: Trait>(
    before: Module<T>,
    relayer_id: T::InboundRelayer,
    messages: Map<
        LaneId,
        ProvedLaneMessages<DispatchMessage<T::InboundPayload, T::InboundMessageFee>>,
    >,
    dispatch_weight: Weight,
    result: DispatchResult,
    after: Module<T>,
) -> (weights: Seq<Weight>)
    requires
        Module::<T>::answers_proved_messages(
            before,
            relayer_id,
            messages,
            dispatch_weight,
            result,
            after,
        ),
    ensures
        each_weighs::<T::InboundMessageFee, T::MessageDispatch>(
            before.message_dispatch,
            messages_of_lanes(ordered_lanes(messages)),
            weights,
        ),
        ({
            let sum = weights.fold_left(0int, |sum: int, weight: Weight| sum + weight);
            &&& dispatch_weight < sum ==> result == Err::<(), DispatchError>(
                DispatchError::Module(Error::InvalidMessagesDispatchWeight),
            ) && after == before
            &&& dispatch_weight >= sum ==> result == Ok::<(), DispatchError>(())
        }),
{
    let all = messages_of_lanes(ordered_lanes(messages));
    let limit = before.max_unconfirmed_messages_at_inbound_lane;
    let lanes = ordered_lanes(messages);
    let weights = choose|weights: Seq<Weight>|
        {
            &&& #[trigger] weighed::<T::InboundMessageFee, T::MessageDispatch>(
                before.message_dispatch,
                messages_of_lanes(lanes),
                weights,
            )
            &&& if dispatch_weight < total_weight(weights) {
                &&& result == Err::<(), DispatchError>(
                    DispatchError::Module(Error::InvalidMessagesDispatchWeight),
                )
                &&& after == before
            } else {
                &&& result == Ok::<(), DispatchError>(())
                &&& after.contents() == before.contents().after_lanes(limit, relayer_id, lanes)
                &&& dispatched::<T::InboundMessageFee, T::MessageDispatch>(
                    before.message_dispatch,
                    before.contents().accepted_of_lanes(limit, relayer_id, lanes),
                    after.message_dispatch,
                )
                &&& after.events@ == before.events@
                &&& after.payment == before.payment
                &&& after.configured_as(before)
            }
        };
    weight_is_the_sum_of_all(weights);
    assert forall|i: int| 0 <= i < all.len() implies before.message_dispatch.weighs(
        #[trigger] all[i],
        weights[i],
    ) by {
        let weight = weights[i];
    }
    weights
}

/// What the messages of a proof do, once they are not refused: each lane of the proof takes in its
/// state and its messages in the name of the relayer, and no other lane changes. Those messages are
/// dispatched that the lanes receive, each once, lane by lane and nonce by nonce, with the data that
/// the proof holds of them. No event is added, nothing is paid, and what is outbound stays as it
/// is.
pub proof fn messages_of_a_proof_are_received_and_dispatched<T: Trait>(
    before: Module<T>,
    relayer_id: T::InboundRelayer,
    messages: Map<
        LaneId,
        ProvedLaneMessages<DispatchMessage<T::InboundPayload, T::InboundMessageFee>>,
    >,
    dispatch_weight: Weight,
    after: Module<T>,
) -> (dispatch: (
    Seq<DispatchMessage<T::InboundPayload, T::InboundMessageFee>>,
    Seq<T::MessageDispatch>,
))
    requires
        Module::<T>::answers_proved_messages(
            before,
            relayer_id,
            messages,
            dispatch_weight,
            Ok::<(), DispatchError>(()),
            after,
        ),
        forall|id: LaneId| entries_follow_on(#[trigger] before.contents().inbound_lane(id)),
    ensures
        after.contents().outbound_lanes == before.contents().outbound_lanes,
        after.contents().outbound_messages == before.contents().outbound_messages,
        after.events@ == before.events@,
        after.payment == before.payment,
        same_configuration(before, after),
        forall|id: LaneId|
            !messages.contains_key(id) ==> #[trigger] after.contents().inbound_lane(id)
                == before.contents().inbound_lane(id),
        forall|id: LaneId| #[trigger]
            messages.contains_key(id) ==> takes_in(
                before.contents().inbound_lane(id),
                messages[id].lane_state,
                relayer_id,
                after.contents().inbound_lane(id),
            ),
        forall|id: LaneId|
            before.contents().inbound_lane(id).relayers.len()
                <= before.max_unconfirmed_messages_at_inbound_lane ==> (
            #[trigger] after.contents().inbound_lane(id)).relayers.len()
                <= before.max_unconfirmed_messages_at_inbound_lane,
        ({
            let (received, path) = dispatch;
            &&& keys_ascend(received)
            &&& forall|k: int|
                0 <= k < received.len() ==> {
                    let key = (#[trigger] received[k]).key;
                    &&& before.contents().inbound_lane(key.lane_id).latest_received_nonce
                        < key.nonce
                    &&& key.nonce <= after.contents().inbound_lane(
                        key.lane_id,
                    ).latest_received_nonce
                    &&& messages.contains_key(key.lane_id)
                    &&& came_in(messages[key.lane_id].messages@, received[k])
                }
            &&& forall|key: MessageKey|
                before.contents().inbound_lane(key.lane_id).latest_received_nonce < key.nonce
                    <= after.contents().inbound_lane(key.lane_id).latest_received_nonce
                    ==> #[trigger] has_key(received, key)
            &&& dispatches_one_by_one::<T::InboundMessageFee, T::MessageDispatch>(
                path,
                before.message_dispatch,
                received,
                after.message_dispatch,
            )
        }),
{
    let contents = before.contents();
    let limit = before.max_unconfirmed_messages_at_inbound_lane;
    let lanes = ordered_lanes(messages);
    lanes_are_taken_in_ascending_order(messages);
    lanes_take_in_what_is_theirs(contents, limit, relayer_id, lanes);
    let received = contents.accepted_of_lanes(limit, relayer_id, lanes);
    messages_are_dispatched_one_by_one::<T::InboundMessageFee, T::MessageDispatch>(
        before.message_dispatch,
        received,
        after.message_dispatch,
    );
    let path = choose|path: Seq<T::MessageDispatch>| #[trigger]
        dispatches_one_by_one::<T::InboundMessageFee, T::MessageDispatch>(
            path,
            before.message_dispatch,
            received,
            after.message_dispatch,
        );
    assert forall|id: LaneId| !messages.contains_key(id) implies
        #[trigger] after.contents().inbound_lane(id) == before.contents().inbound_lane(id) by {
        assert forall|i: int| 0 <= i < lanes.len() implies (#[trigger] lanes[i]).0 != id by {}
    }
    assert forall|id: LaneId| #[trigger] messages.contains_key(id) implies takes_in(
        before.contents().inbound_lane(id),
        messages[id].lane_state,
        relayer_id,
        after.contents().inbound_lane(id),
    ) by {
        let i = choose|i: int| 0 <= i < lanes.len() && lanes[i] == (id, messages[id]);
        assert(lanes[i].0 == id);
    }
    assert forall|k: int| 0 <= k < received.len() implies {
        let key = (#[trigger] received[k]).key;
        &&& contents.inbound_lane(key.lane_id).latest_received_nonce < key.nonce
        &&& key.nonce <= after.contents().inbound_lane(key.lane_id).latest_received_nonce
        &&& messages.contains_key(key.lane_id)
        &&& came_in(messages[key.lane_id].messages@, received[k])
    } by {
        let key = received[k].key;
        let i = choose|i: int|
            0 <= i < lanes.len() && (#[trigger] lanes[i]).0 == key.lane_id && came_in(
                lanes[i].1.messages@,
                received[k],
            );
        assert(lanes[i].1 == messages[lanes[i].0]);
    }
    (received, path)
}

/// What has been reported stays true when messages of a proof come in, and when a message is refused;
/// where nothing has been reported, all reports are true.
pub proof fn reports_stay_true<T: Trait>(
    before: Module<T>,
    relayer_id: T::InboundRelayer,
    messages: Map<
        LaneId,
        ProvedLaneMessages<DispatchMessage<T::InboundPayload, T::InboundMessageFee>>,
    >,
    dispatch_weight: Weight,
    origin: RawOrigin<T::AccountId>,
    lane_id: LaneId,
    payload: T::OutboundPayload,
    fee: T::OutboundMessageFee,
    result: DispatchResult,
    after: Module<T>,
)
    ensures
        before.events@.len() == 0 ==> reports_are_true(before),
        reports_are_true(before) && Module::<T>::answers_proved_messages(
            before,
            relayer_id,
            messages,
            dispatch_weight,
            result,
            after,
        ) ==> reports_are_true(after),
        reports_are_true(before) && result is Err && Module::<T>::answers_message(
            before,
            origin,
            lane_id,
            payload,
            fee,
            result,
            after,
        ) ==> reports_are_true(after),
{
    if reports_are_true(before) && Module::<T>::answers_proved_messages(
        before,
        relayer_id,
        messages,
        dispatch_weight,
        result,
        after,
    ) {
        let weights = every_message_of_a_proof_is_weighed(
            before,
            relayer_id,
            messages,
            dispatch_weight,
            result,
            after,
        );
        proof_leaves_outbound_alone(
            before.contents(),
            before.max_unconfirmed_messages_at_inbound_lane,
            relayer_id,
            ordered_lanes(messages),
        );
        if result is Ok {
            assert(after.contents().outbound_lanes == before.contents().outbound_lanes);
            assert forall|i: int| 0 <= i < after.events@.len() implies match
            #[trigger] after.events@[i] {
                Event::MessageAccepted(id, n) => n <= after.contents().outbound_lane(
                    id,
                ).latest_generated_nonce,
                Event::MessagesDelivered(id, begin, end) => begin <= end
                    <= after.contents().outbound_lane(id).latest_received_nonce,
            } by {
                assert(before.events@[i] == after.events@[i]);
            }
        }
    }
    if reports_are_true(before) && result is Err && Module::<T>::answers_message(
        before,
        origin,
        lane_id,
        payload,
        fee,
        result,
        after,
    ) {
        messages_are_answered_as_the_services_say(
            before,
            origin,
            lane_id,
            payload,
            fee,
            result,
            after,
        );
        assert(after == (Module { payment: after.payment, ..before }));
    }
}

/// Messages that come next at one of several lanes all arrive.
proof fn lemma_next_messages_of_lanes<RelayerId, Fee, Payload, InboundFee>(
    contents: StoreContents<RelayerId, Fee>,
    limit: MessageNonce,
    relayer: RelayerId,
    lanes: Seq<(LaneId, ProvedLaneMessages<DispatchMessage<Payload, InboundFee>>)>,
    i: int,
)
    requires
        forall|id: LaneId| entries_follow_on(#[trigger] contents.inbound_lane(id)),
        forall|j: int, k: int|
            0 <= j < k < lanes.len() ==> (#[trigger] lanes[j]).0 < (#[trigger] lanes[k]).0,
        0 <= i < lanes.len(),
        contents.inbound_lane(lanes[i].0).relayers.len() < limit,
        forall|j: int|
            0 <= j < lanes[i].1.messages@.len() ==> (#[trigger] lanes[i].1.messages@[j]).key.nonce
                == contents.inbound_lane(lanes[i].0).latest_received_nonce + 1 + j,
    ensures
        contents.after_lanes(limit, relayer, lanes).inbound_lane(lanes[i].0).latest_received_nonce
            == contents.inbound_lane(lanes[i].0).latest_received_nonce
            + lanes[i].1.messages@.len(),
{
    let lane_id = lanes[i].0;
    let first = lanes.take(i);
    let rest = lanes.skip(i);
    let others = lanes.skip(i + 1);
    let lane = lanes[i];
    assert(lanes =~= first + rest);
    assert(rest =~= seq![lane] + others);
    lanes_add_up(contents, limit, relayer, first, rest, lane);
    let reached = contents.after_lanes(limit, relayer, first);
    lanes_add_up(reached, limit, relayer, seq![lane], others, lane);
    let passed = reached.after_lanes(limit, relayer, seq![lane]);
    assert forall|j: int, k: int| 0 <= j < k < first.len() implies (#[trigger] first[j]).0 < (
    #[trigger] first[k]).0 by {
        assert(lanes[j].0 < lanes[k].0);
    }
    assert forall|j: int, k: int| 0 <= j < k < others.len() implies (#[trigger] others[j]).0 < (
    #[trigger] others[k]).0 by {
        assert(lanes[i + 1 + j].0 < lanes[i + 1 + k].0);
    }
    assert forall|j: int| 0 <= j < first.len() implies (#[trigger] first[j]).0 != lane_id by {
        assert(lanes[j].0 < lanes[i].0);
    }
    assert forall|j: int| 0 <= j < others.len() implies (#[trigger] others[j]).0 != lane_id by {
        assert(lanes[i].0 < lanes[i + 1 + j].0);
    }
    lanes_take_in_what_is_theirs(contents, limit, relayer, first);
    assert(reached.inbound_lane(lane_id) == contents.inbound_lane(lane_id));
    lane_takes_in_state_and_messages(reached, limit, relayer, lane);
    assert forall|id: LaneId| entries_follow_on(#[trigger] passed.inbound_lane(id)) by {
        if id != lane_id {
            assert(passed.inbound_lane(id) == reached.inbound_lane(id));
        }
    }
    lanes_take_in_what_is_theirs(passed, limit, relayer, others);
    assert(contents.after_lanes(limit, relayer, lanes).inbound_lane(lane_id) == passed.inbound_lane(lane_id));
    let updated = match lane.1.lane_state {
        Some(lane_state) => reached.after_state_update(lane_id, lane_state),
        None => reached,
    };
    if let Some(lane_state) = lane.1.lane_state {
        state_update_forgets_confirmed_deliveries(reached, lane_id, lane_state);
    }
    next_messages_all_arrive(updated, lane_id, limit, relayer, lane.1.messages@);
}

/// Messages of a proof that come next at their lane all arrive, however many there are, if the
/// relayer finds room for an entry there.
pub proof fn next_messages_of_a_proof_all_arrive<T: Trait>(
    before: Module<T>,
    relayer_id: T::InboundRelayer,
    messages: Map<
        LaneId,
        ProvedLaneMessages<DispatchMessage<T::InboundPayload, T::InboundMessageFee>>,
    >,
    dispatch_weight: Weight,
    after: Module<T>,
    lane_id: LaneId,
)
    requires
        Module::<T>::answers_proved_messages(
            before,
            relayer_id,
            messages,
            dispatch_weight,
            Ok::<(), DispatchError>(()),
            after,
        ),
        forall|id: LaneId| entries_follow_on(#[trigger] before.contents().inbound_lane(id)),
        messages.contains_key(lane_id),
        before.contents().inbound_lane(lane_id).relayers.len()
            < before.max_unconfirmed_messages_at_inbound_lane,
        forall|i: int|
            0 <= i < messages[lane_id].messages@.len() ==> (
            #[trigger] messages[lane_id].messages@[i]).key.nonce == before.contents().inbound_lane(
                lane_id,
            ).latest_received_nonce + 1 + i,
    ensures
        after.contents().inbound_lane(lane_id).latest_received_nonce
            == before.contents().inbound_lane(lane_id).latest_received_nonce
            + messages[lane_id].messages@.len(),
{
    let contents = before.contents();
    let limit = before.max_unconfirmed_messages_at_inbound_lane;
    let lanes = ordered_lanes(messages);
    lanes_are_taken_in_ascending_order(messages);
    let i = choose|i: int| 0 <= i < lanes.len() && lanes[i] == (lane_id, messages[lane_id]);
    lemma_next_messages_of_lanes(contents, limit, relayer_id, lanes, i);
}

/// A proof of messages is answered as the source chain says: without a signature it is not asked; if
/// it refuses, that is the error, and nothing changes; if it passes the proof, the messages that it
/// gives are decoded and then answered.
pub proof fn message_proofs_are_answered_as_the_chain_says<T: Trait>(
    before: Module<T>,
    origin: RawOrigin<T::AccountId>,
    relayer_id: T::InboundRelayer,
    messages_proof: <T::SourceHeaderChain as SourceHeaderChain<
        T::InboundMessageFee,
    >>::MessagesProof,
    dispatch_weight: Weight,
    result: DispatchResult,
    after: Module<T>,
)
    requires
        Module::<T>::answers_messages_proof(
            before,
            origin,
            relayer_id,
            messages_proof,
            dispatch_weight,
            result,
            after,
        ),
    ensures
        match result {
            Err(DispatchError::BadOrigin) => !(origin is Signed) && after == before,
            Err(DispatchError::Module(Error::InvalidMessagesProof)) => {
                &&& origin is Signed
                &&& exists|refusal|
                    before.source_header_chain.proof_verdict(messages_proof, Err(refusal))
                &&& after == before
            },
            _ => {
                &&& origin is Signed
                &&& result is Err ==> result == Err::<(), DispatchError>(
                    DispatchError::Module(Error::InvalidMessagesDispatchWeight),
                )
                &&& exists|
                    proved: ProvedMessages<Message<T::InboundMessageFee>>,
                    decoded: Map<
                        LaneId,
                        ProvedLaneMessages<
                            DispatchMessage<T::InboundPayload, T::InboundMessageFee>,
                        >,
                    >,
                |
                    {
                        &&& #[trigger] before.source_header_chain.proof_verdict(
                            messages_proof,
                            Ok(proved),
                        )
                        &&& #[trigger] all_decoded_from(proved@, decoded)
                        &&& Module::<T>::answers_proved_messages(
                            before,
                            relayer_id,
                            decoded,
                            dispatch_weight,
                            result,
                            after,
                        )
                    }
            },
        },
{
    if let RawOrigin::Signed(signer) = origin {
        let verdict = choose|
            verdict: Result<
                ProvedMessages<Message<T::InboundMessageFee>>,
                <T::SourceHeaderChain as SourceHeaderChain<T::InboundMessageFee>>::Error,
            >,
        |
            {
                &&& #[trigger] before.source_header_chain.proof_verdict(messages_proof, verdict)
                &&& match verdict {
                    Ok(proved) => exists|
                        decoded: Map<
                            LaneId,
                            ProvedLaneMessages<
                                DispatchMessage<T::InboundPayload, T::InboundMessageFee>,
                            >,
                        >,
                    |
                        {
                            &&& #[trigger] all_decoded_from(proved@, decoded)
                            &&& Module::<T>::answers_proved_messages(
                                before,
                                relayer_id,
                                decoded,
                                dispatch_weight,
                                result,
                                after,
                            )
                        },
                    Err(_) => {
                        &&& result == Err::<(), DispatchError>(
                            DispatchError::Module(Error::InvalidMessagesProof),
                        )
                        &&& after == before
                    },
                }
            };
        match verdict {
            Ok(proved) => {
                let decoded = choose|
                    decoded: Map<
                        LaneId,
                        ProvedLaneMessages<
                            DispatchMessage<T::InboundPayload, T::InboundMessageFee>,
                        >,
                    >,
                |
                    {
                        &&& #[trigger] all_decoded_from(proved@, decoded)
                        &&& Module::<T>::answers_proved_messages(
                            before,
                            relayer_id,
                            decoded,
                            dispatch_weight,
                            result,
                            after,
                        )
                    };
                let weights = every_message_of_a_proof_is_weighed(
                    before,
                    relayer_id,
                    decoded,
                    dispatch_weight,
                    result,
                    after,
                );
            },
            Err(refusal) => {
                assert(before.source_header_chain.proof_verdict(messages_proof, Err(refusal)));
            },
        }
    }
}

/// What holds of the storage before a call holds after it: no call makes a valid storage invalid,
/// drops a message that waits for its confirmation, or exceeds the limit.
pub proof fn calls_keep_what_has_held<T: Trait>(before: Module<T>, after: Module<T>)
    requires
        Module::<T>::invariants_kept(before, after),
    ensures
        before.contents().outbound_valid() ==> after.contents().outbound_valid(),
        before.contents().unconfirmed_queued() ==> after.contents().unconfirmed_queued(),
        (forall|id: LaneId| (#[trigger] before.contents().inbound_lane(id)).well_formed()) ==> (
        forall|id: LaneId| (#[trigger] after.contents().inbound_lane(id)).well_formed()),
        (forall|id: LaneId|
            (#[trigger] before.contents().inbound_lane(id)).relayers.len()
                <= before.max_unconfirmed_messages_at_inbound_lane) ==> (forall|id: LaneId|
            (#[trigger] after.contents().inbound_lane(id)).relayers.len()
                <= after.max_unconfirmed_messages_at_inbound_lane),
{
}

} // verus!
