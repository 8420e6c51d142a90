//! What holds of the lanes as a whole.
use crate::codec::{
    decoded_from, encoded_call_is_read_back, Decode, DecodeError, DispatchMessage,
    Encode,
};
use crate::config::SourceHeaderChain;
use crate::confirmation::{rewarded, rewarded_by_entry};
use crate::inbound_lane::{adjoining, nonces_of, unconfirmed_entries};
use crate::primitives::{
    InboundLaneState, LaneId, Message, MessageContents, MessageKey, MessageNonce,
    OutboundLaneData, Parameter, ProvedLaneMessages, ProvedMessages, Weight,
};
use crate::proved_messages::{
    all_decoded_from, lane_decoded_from, others_decode_one_way, proof_decoded, proves, same_but_for_payload,
    same_but_for_payload_bytes,
};
use crate::runtime_storage::RuntimeInboundLaneStorage;
use crate::store::StoreContents;
use vstd::prelude::*;

verus! {

/// An empty storage is valid and within every limit.
pub proof fn empty_storage_is_valid<RelayerId, Fee>()
    ensures
        StoreContents::<RelayerId, Fee>::empty().outbound_valid(),
        StoreContents::<RelayerId, Fee>::empty().unconfirmed_queued(),
        StoreContents::<RelayerId, Fee>::empty().inbound_valid(),
        forall|max_unconfirmed_messages: MessageNonce| #[trigger]
            StoreContents::<RelayerId, Fee>::empty().within_limit(max_unconfirmed_messages),
{
}

/// Sending a message leaves a valid storage valid.
pub proof fn send_keeps_outbound_valid<RelayerId, Fee>(
    contents: StoreContents<RelayerId, Fee>,
    lane_id: LaneId,
    message: MessageContents<Fee>,
)
    requires
        contents.outbound_valid(),
        contents.next_nonce(lane_id) <= MessageNonce::MAX,
    ensures
        contents.after_send(lane_id, message).outbound_valid(),
{
    let after = contents.after_send(lane_id, message);
    assert forall|id: LaneId| #[trigger] after.outbound_nonces_ordered(id) by {
        assert(contents.outbound_nonces_ordered(id));
    }
    assert forall|key: MessageKey| #[trigger]
        after.outbound_messages.contains_key(key) <==> {
            &&& after.outbound_lane(key.lane_id).oldest_unpruned_nonce <= key.nonce
            &&& key.nonce <= after.outbound_lane(key.lane_id).latest_generated_nonce
        } by {
        assert(contents.outbound_nonces_ordered(lane_id));
        assert(contents.outbound_messages.contains_key(key) <==> {
            &&& contents.outbound_lane(key.lane_id).oldest_unpruned_nonce <= key.nonce
            &&& key.nonce <= contents.outbound_lane(key.lane_id).latest_generated_nonce
        });
    }
}

/// A confirmation leaves a valid storage valid.
pub proof fn confirmation_keeps_outbound_valid<RelayerId, Fee>(
    contents: StoreContents<RelayerId, Fee>,
    lane_id: LaneId,
    latest_received_nonce: MessageNonce,
)
    requires
        contents.outbound_valid(),
    ensures
        contents.after_confirmation(lane_id, latest_received_nonce).outbound_valid(),
{
    let after = contents.after_confirmation(lane_id, latest_received_nonce);
    assert forall|id: LaneId| #[trigger] after.outbound_nonces_ordered(id) by {
        assert(contents.outbound_nonces_ordered(id));
    }
    assert forall|key: MessageKey| #[trigger]
        after.outbound_messages.contains_key(key) <==> {
            &&& after.outbound_lane(key.lane_id).oldest_unpruned_nonce <= key.nonce
            &&& key.nonce <= after.outbound_lane(key.lane_id).latest_generated_nonce
        } by {
        assert(contents.outbound_messages.contains_key(key) <==> {
            &&& contents.outbound_lane(key.lane_id).oldest_unpruned_nonce <= key.nonce
            &&& key.nonce <= contents.outbound_lane(key.lane_id).latest_generated_nonce
        });
    }
}

/// Pruning leaves a valid storage valid.
pub proof fn prune_keeps_outbound_valid<RelayerId, Fee>(
    contents: StoreContents<RelayerId, Fee>,
    lane_id: LaneId,
    max_messages_to_prune: MessageNonce,
)
    requires
        contents.outbound_valid(),
    ensures
        contents.after_prune(lane_id, max_messages_to_prune).outbound_valid(),
{
    let after = contents.after_prune(lane_id, max_messages_to_prune);
    assert forall|id: LaneId| #[trigger] after.outbound_nonces_ordered(id) by {
        assert(contents.outbound_nonces_ordered(id));
    }
    assert forall|key: MessageKey| #[trigger]
        after.outbound_messages.contains_key(key) <==> {
            &&& after.outbound_lane(key.lane_id).oldest_unpruned_nonce <= key.nonce
            &&& key.nonce <= after.outbound_lane(key.lane_id).latest_generated_nonce
        } by {
        assert(contents.outbound_nonces_ordered(lane_id));
        assert(contents.outbound_messages.contains_key(key) <==> {
            &&& contents.outbound_lane(key.lane_id).oldest_unpruned_nonce <= key.nonce
            &&& key.nonce <= contents.outbound_lane(key.lane_id).latest_generated_nonce
        });
    }
}

/// In a valid storage all messages that wait for a confirmation are queued.
pub proof fn valid_storage_queues_unconfirmed_messages<RelayerId, Fee>(
    contents: StoreContents<RelayerId, Fee>,
)
    requires
        contents.outbound_valid(),
    ensures
        contents.unconfirmed_queued(),
{
    assert forall|key: MessageKey|
        contents.outbound_lane(key.lane_id).latest_received_nonce < key.nonce
            <= contents.outbound_lane(key.lane_id).latest_generated_nonce implies #[trigger]
        contents.outbound_messages.contains_key(key) by {
        assert(contents.outbound_nonces_ordered(key.lane_id));
    }
}

/// A message that has been sent is queued, and all messages that wait for a confirmation stay
/// queued when another one is sent.
pub proof fn send_keeps_unconfirmed_queued<RelayerId, Fee>(
    contents: StoreContents<RelayerId, Fee>,
    lane_id: LaneId,
    message: MessageContents<Fee>,
    max_messages_to_prune: MessageNonce,
)
    requires
        contents.unconfirmed_queued(),
        contents.next_nonce(lane_id) <= MessageNonce::MAX,
    ensures
        contents.after_send(lane_id, message).after_prune(
            lane_id,
            max_messages_to_prune,
        ).unconfirmed_queued(),
{
    let sent = contents.after_send(lane_id, message);
    let nonce = contents.next_nonce(lane_id) as MessageNonce;
    assert forall|key: MessageKey|
        sent.outbound_lane(key.lane_id).latest_received_nonce < key.nonce
            <= sent.outbound_lane(key.lane_id).latest_generated_nonce implies #[trigger]
        sent.outbound_messages.contains_key(key) by {
        if key != (MessageKey { lane_id, nonce }) {
            assert(contents.outbound_messages.contains_key(key));
        }
    }
    prune_keeps_unconfirmed_queued(sent, lane_id, max_messages_to_prune);
}

/// All messages that wait for a confirmation stay queued when others are confirmed.
pub proof fn report_keeps_unconfirmed_queued<RelayerId, Fee>(
    contents: StoreContents<RelayerId, Fee>,
    lane_id: LaneId,
    latest_received_nonce: MessageNonce,
    max_messages_to_prune: MessageNonce,
)
    requires
        contents.unconfirmed_queued(),
    ensures
        contents.after_delivery_report(
            lane_id,
            latest_received_nonce,
            max_messages_to_prune,
        ).unconfirmed_queued(),
{
    let confirmed = contents.after_confirmation(lane_id, latest_received_nonce);
    assert forall|key: MessageKey|
        confirmed.outbound_lane(key.lane_id).latest_received_nonce < key.nonce
            <= confirmed.outbound_lane(key.lane_id).latest_generated_nonce implies #[trigger]
        confirmed.outbound_messages.contains_key(key) by {
        assert(contents.outbound_messages.contains_key(key));
    }
    prune_keeps_unconfirmed_queued(confirmed, lane_id, max_messages_to_prune);
}

/// Pruning leaves all messages queued that wait for a confirmation.
pub proof fn prune_keeps_unconfirmed_queued<RelayerId, Fee>(
    contents: StoreContents<RelayerId, Fee>,
    lane_id: LaneId,
    max_messages_to_prune: MessageNonce,
)
    requires
        contents.unconfirmed_queued(),
    ensures
        contents.after_prune(lane_id, max_messages_to_prune).unconfirmed_queued(),
{
    let after = contents.after_prune(lane_id, max_messages_to_prune);
    assert forall|key: MessageKey|
        after.outbound_lane(key.lane_id).latest_received_nonce < key.nonce
            <= after.outbound_lane(key.lane_id).latest_generated_nonce implies #[trigger]
        after.outbound_messages.contains_key(key) by {
        assert(contents.outbound_messages.contains_key(key));
    }
}

/// Messages that are rewarded have just been confirmed, so they are still queued: unconfirmed
/// messages are never pruned.
pub proof fn confirmed_messages_are_queued<RelayerId, Fee, AccountId>(
    contents: StoreContents<RelayerId, Fee>,
    lane_id: LaneId,
    lane: InboundLaneState<AccountId>,
)
    requires
        contents.unconfirmed_queued(),
    ensures
        contents.report_covered(lane_id, lane),
{
    if contents.outbound_lane(lane_id).can_confirm(lane.latest_received_nonce) {
        let received_range = contents.received_range(lane_id, lane.latest_received_nonce);
        let deliveries = rewarded(lane.relayers, received_range);
        rewards_stay_in_range(lane.relayers, received_range);
        assert forall|i: int| 0 <= i < deliveries.len() implies
            contents.outbound_messages.contains_key(
            MessageKey { lane_id, nonce: (#[trigger] deliveries[i]).1 },
        ) by {
            let key = MessageKey { lane_id, nonce: deliveries[i].1 };
            assert(received_range.0 <= key.nonce <= received_range.1);
        }
    }
}

/// The entries of a lane ascend.
pub proof fn entries_ascend<RelayerId>(lane: InboundLaneState<RelayerId>, i: int, j: int)
    requires
        lane.well_formed(),
        0 <= i < j < lane.relayers.len(),
    ensures
        lane.relayers[i].1 < lane.relayers[j].0,
    decreases j - i,
{
    assert(adjoining(lane.relayers, i));
    if i + 1 < j {
        entries_ascend(lane, i + 1, j);
        assert(lane.relayers[i + 1].0 <= lane.relayers[i + 1].1);
    }
}

/// The entries that are left by a confirmation cover the messages that are left to confirm.
proof fn lemma_unconfirmed_entries<RelayerId>(
    lane: InboundLaneState<RelayerId>,
    latest_confirmed_nonce: MessageNonce,
)
    requires
        lane.well_formed(),
        lane.can_confirm(latest_confirmed_nonce),
    ensures
        lane.confirmed(latest_confirmed_nonce).well_formed(),
    decreases lane.relayers.len(),
{
    let relayers = lane.relayers;
    let first = relayers[0];
    if relayers.len() > 1 {
        entries_ascend(lane, 0, relayers.len() - 1);
    }
    if first.1 < latest_confirmed_nonce {
        let rest = InboundLaneState {
            relayers: relayers.drop_first(),
            latest_confirmed_nonce: first.1,
            ..lane
        };
        if relayers.len() > 1 {
            assert(adjoining(relayers, 0));
        }
        assert forall|i: int| 0 <= i < rest.relayers.len() - 1 implies #[trigger] adjoining(
            rest.relayers,
            i,
        ) by {
            assert(adjoining(relayers, i + 1));
        }
        lemma_unconfirmed_entries(rest, latest_confirmed_nonce);
        assert(lane.confirmed(latest_confirmed_nonce) == rest.confirmed(latest_confirmed_nonce));
    } else if first.1 == latest_confirmed_nonce {
        let rest = relayers.drop_first();
        if rest.len() > 0 {
            assert(adjoining(relayers, 0));
        }
        assert(unconfirmed_entries(rest, latest_confirmed_nonce) =~= rest);
        assert(unconfirmed_entries(relayers, latest_confirmed_nonce) =~= rest);
        assert forall|i: int| 0 <= i < rest.len() - 1 implies #[trigger] adjoining(rest, i) by {
            assert(adjoining(relayers, i + 1));
        }
    } else {
        let rest = unconfirmed_entries(relayers, latest_confirmed_nonce);
        assert forall|i: int| 0 <= i < rest.len() - 1 implies #[trigger] adjoining(rest, i) by {
            assert(adjoining(relayers, i));
        }
    }
}

/// The state of the outbound lane leaves a valid storage valid.
pub proof fn state_update_keeps_inbound_valid<RelayerId, Fee>(
    contents: StoreContents<RelayerId, Fee>,
    lane_id: LaneId,
    outbound: OutboundLaneData,
)
    requires
        contents.inbound_valid(),
    ensures
        contents.after_state_update(lane_id, outbound).inbound_valid(),
{
    let after = contents.after_state_update(lane_id, outbound);
    let lane = contents.inbound_lane(lane_id);
    if lane.can_confirm(outbound.latest_received_nonce) {
        lemma_unconfirmed_entries(lane, outbound.latest_received_nonce);
    }
    assert forall|id: LaneId| (#[trigger] after.inbound_lane(id)).well_formed() by {
        assert(contents.inbound_lane(id).well_formed());
    }
}

/// An inbound message leaves a valid storage valid.
pub proof fn message_keeps_inbound_valid<RelayerId, Fee>(
    contents: StoreContents<RelayerId, Fee>,
    lane_id: LaneId,
    max_unconfirmed_messages: MessageNonce,
    relayer: RelayerId,
    nonce: MessageNonce,
)
    requires
        contents.inbound_valid(),
    ensures
        contents.after_message(
            lane_id,
            max_unconfirmed_messages,
            relayer,
            nonce,
        ).inbound_valid(),
{
    let after = contents.after_message(lane_id, max_unconfirmed_messages, relayer, nonce);
    let lane = contents.inbound_lane(lane_id);
    if lane.accepts(max_unconfirmed_messages, relayer, nonce) {
        let now = lane.with_delivery(relayer, nonce);
        assert forall|i: int| 0 <= i < now.relayers.len() - 1 implies #[trigger] adjoining(
            now.relayers,
            i,
        ) by {
            if i < lane.relayers.len() - 1 {
                assert(adjoining(lane.relayers, i));
            }
        }
        assert(now.well_formed());
    }
    assert forall|id: LaneId| (#[trigger] after.inbound_lane(id)).well_formed() by {
        assert(contents.inbound_lane(id).well_formed());
    }
}

/// Inbound messages leave a valid storage valid.
pub proof fn deliveries_keep_inbound_valid<RelayerId, Fee>(
    contents: StoreContents<RelayerId, Fee>,
    lane_id: LaneId,
    max_unconfirmed_messages: MessageNonce,
    relayer: RelayerId,
    nonces: Seq<MessageNonce>,
)
    requires
        contents.inbound_valid(),
    ensures
        contents.after_deliveries(
            lane_id,
            max_unconfirmed_messages,
            relayer,
            nonces,
        ).inbound_valid(),
    decreases nonces.len(),
{
    if nonces.len() > 0 {
        deliveries_keep_inbound_valid(
            contents,
            lane_id,
            max_unconfirmed_messages,
            relayer,
            nonces.drop_last(),
        );
        message_keeps_inbound_valid(
            contents.after_deliveries(
                lane_id,
                max_unconfirmed_messages,
                relayer,
                nonces.drop_last(),
            ),
            lane_id,
            max_unconfirmed_messages,
            relayer,
            nonces.last(),
        );
    }
}

/// What a proof holds leaves a valid storage valid.
pub proof fn proof_keeps_inbound_valid<RelayerId, Fee, Payload, InboundFee>(
    contents: StoreContents<RelayerId, Fee>,
    max_unconfirmed_messages: MessageNonce,
    relayer: RelayerId,
    lanes: Seq<(LaneId, ProvedLaneMessages<DispatchMessage<Payload, InboundFee>>)>,
)
    requires
        contents.inbound_valid(),
    ensures
        contents.after_lanes(max_unconfirmed_messages, relayer, lanes).inbound_valid(),
    decreases lanes.len(),
{
    if lanes.len() > 0 {
        let earlier = contents.after_lanes(max_unconfirmed_messages, relayer, lanes.drop_last());
        let (lane_id, lane) = lanes.last();
        proof_keeps_inbound_valid(
            contents,
            max_unconfirmed_messages,
            relayer,
            lanes.drop_last(),
        );
        if let Some(lane_state) = lane.lane_state {
            state_update_keeps_inbound_valid(earlier, lane_id, lane_state);
        }
        deliveries_keep_inbound_valid(
            earlier.after_lane_state(lane_id, lane.lane_state),
            lane_id,
            max_unconfirmed_messages,
            relayer,
            nonces_of(lane.messages@),
        );
    }
}

/// What comes in over the inbound lanes leaves the outbound lanes and the queue alone.
pub proof fn proof_leaves_outbound_alone<RelayerId, Fee, Payload, InboundFee>(
    contents: StoreContents<RelayerId, Fee>,
    max_unconfirmed_messages: MessageNonce,
    relayer: RelayerId,
    lanes: Seq<(LaneId, ProvedLaneMessages<DispatchMessage<Payload, InboundFee>>)>,
)
    ensures
        contents.after_lanes(max_unconfirmed_messages, relayer, lanes) == (StoreContents {
            inbound_lanes: contents.after_lanes(
                max_unconfirmed_messages,
                relayer,
                lanes,
            ).inbound_lanes,
            ..contents
        }),
    decreases lanes.len(),
{
    if lanes.len() > 0 {
        let earlier = contents.after_lanes(max_unconfirmed_messages, relayer, lanes.drop_last());
        let (lane_id, lane) = lanes.last();
        proof_leaves_outbound_alone(contents, max_unconfirmed_messages, relayer, lanes.drop_last());
        deliveries_touch_one_inbound_lane(
            earlier.after_lane_state(lane_id, lane.lane_state),
            lane_id,
            max_unconfirmed_messages,
            relayer,
            nonces_of(lane.messages@),
        );
    }
}

/// Deliveries over a lane leave the other inbound lanes, the outbound lanes and the queue alone.
pub proof fn deliveries_touch_one_inbound_lane<RelayerId, Fee>(
    contents: StoreContents<RelayerId, Fee>,
    lane_id: LaneId,
    max_unconfirmed_messages: MessageNonce,
    relayer: RelayerId,
    nonces: Seq<MessageNonce>,
)
    ensures
        ({
            let after = contents.after_deliveries(
                lane_id,
                max_unconfirmed_messages,
                relayer,
                nonces,
            );
            &&& after == (StoreContents { inbound_lanes: after.inbound_lanes, ..contents })
            &&& forall|other: LaneId|
                other != lane_id ==> #[trigger] after.inbound_lane(other)
                    == contents.inbound_lane(other)
        }),
    decreases nonces.len(),
{
    if nonces.len() > 0 {
        deliveries_touch_one_inbound_lane(
            contents,
            lane_id,
            max_unconfirmed_messages,
            relayer,
            nonces.drop_last(),
        );
        let earlier = contents.after_deliveries(
            lane_id,
            max_unconfirmed_messages,
            relayer,
            nonces.drop_last(),
        );
        let after = contents.after_deliveries(lane_id, max_unconfirmed_messages, relayer, nonces);
        assert forall|other: LaneId| other != lane_id implies #[trigger] after.inbound_lane(other)
            == contents.inbound_lane(other) by {
            assert(after.inbound_lane(other) == earlier.inbound_lane(other));
        }
    }
}

/// Sending a message over a lane leaves the other outbound lanes with their messages and the
/// inbound lanes alone.
pub proof fn send_touches_one_outbound_lane<RelayerId, Fee>(
    contents: StoreContents<RelayerId, Fee>,
    lane_id: LaneId,
    message: MessageContents<Fee>,
    max_messages_to_prune: MessageNonce,
)
    ensures
        ({
            let after = contents.after_send(lane_id, message).after_prune(
                lane_id,
                max_messages_to_prune,
            );
            &&& after.inbound_lanes == contents.inbound_lanes
            &&& forall|other: LaneId|
                other != lane_id ==> #[trigger] after.outbound_lane(other)
                    == contents.outbound_lane(other)
            &&& forall|key: MessageKey|
                key.lane_id != lane_id ==> #[trigger] after.outbound_message(key)
                    == contents.outbound_message(key)
        }),
{
}

/// A report of deliveries over a lane leaves the other outbound lanes with their messages and the
/// inbound lanes alone.
pub proof fn delivery_report_touches_one_outbound_lane<RelayerId, Fee>(
    contents: StoreContents<RelayerId, Fee>,
    lane_id: LaneId,
    latest_received_nonce: MessageNonce,
    max_messages_to_prune: MessageNonce,
)
    ensures
        ({
            let after = contents.after_delivery_report(
                lane_id,
                latest_received_nonce,
                max_messages_to_prune,
            );
            &&& after.inbound_lanes == contents.inbound_lanes
            &&& forall|other: LaneId|
                other != lane_id ==> #[trigger] after.outbound_lane(other)
                    == contents.outbound_lane(other)
            &&& forall|key: MessageKey|
                key.lane_id != lane_id ==> #[trigger] after.outbound_message(key)
                    == contents.outbound_message(key)
        }),
{
}

/// Validity of the inbound part rests on the inbound lanes alone.
pub proof fn inbound_valid_rests_on_inbound_lanes<RelayerId, Fee>(
    contents: StoreContents<RelayerId, Fee>,
    other: StoreContents<RelayerId, Fee>,
)
    requires
        contents.inbound_lanes == other.inbound_lanes,
    ensures
        contents.inbound_valid() == other.inbound_valid(),
{
    assert forall|lane_id: LaneId| #[trigger]
        contents.inbound_lane(lane_id) == other.inbound_lane(lane_id) by {}
    if contents.inbound_valid() {
        assert forall|lane_id: LaneId| (#[trigger] other.inbound_lane(lane_id)).well_formed() by {
            assert(contents.inbound_lane(lane_id).well_formed());
        }
    }
}

/// Whether the limit is kept rests on the inbound lanes alone.
pub proof fn limit_rests_on_inbound_lanes<RelayerId, Fee>(
    contents: StoreContents<RelayerId, Fee>,
    other: StoreContents<RelayerId, Fee>,
    max_unconfirmed_messages: MessageNonce,
)
    requires
        contents.inbound_lanes == other.inbound_lanes,
    ensures
        contents.within_limit(max_unconfirmed_messages) == other.within_limit(
            max_unconfirmed_messages,
        ),
{
    assert forall|lane_id: LaneId| #[trigger]
        contents.inbound_lane(lane_id) == other.inbound_lane(lane_id) by {}
    if contents.within_limit(max_unconfirmed_messages) {
        assert forall|lane_id: LaneId|
            (#[trigger] other.inbound_lane(lane_id)).relayers.len() <= max_unconfirmed_messages by {
            assert(contents.inbound_lane(lane_id).relayers.len() <= max_unconfirmed_messages);
        }
    }
}

/// Validity of the outbound part, and whether unconfirmed messages are queued, rest on the outbound
/// lanes and the queue alone.
pub proof fn outbound_valid_rests_on_outbound_lanes<RelayerId, Fee>(
    contents: StoreContents<RelayerId, Fee>,
    other: StoreContents<RelayerId, Fee>,
)
    requires
        contents.outbound_lanes == other.outbound_lanes,
        contents.outbound_messages == other.outbound_messages,
    ensures
        contents.outbound_valid() == other.outbound_valid(),
        contents.unconfirmed_queued() == other.unconfirmed_queued(),
{
    assert forall|lane_id: LaneId| #[trigger]
        contents.outbound_lane(lane_id) == other.outbound_lane(lane_id) by {}
    assert forall|lane_id: LaneId| #[trigger]
        contents.outbound_nonces_ordered(lane_id) == other.outbound_nonces_ordered(lane_id) by {}
    if contents.outbound_valid() {
        assert forall|lane_id: LaneId| #[trigger] other.outbound_nonces_ordered(lane_id) by {
            assert(contents.outbound_nonces_ordered(lane_id));
        }
    }
}

/// The first message of a lane gets nonce 1, and the nonces of a lane have no gaps.
pub proof fn nonces_have_no_gaps<RelayerId, Fee>(
    contents: StoreContents<RelayerId, Fee>,
    lane_id: LaneId,
    message: MessageContents<Fee>,
    max_messages_to_prune: MessageNonce,
)
    requires
        contents.next_nonce(lane_id) <= MessageNonce::MAX,
    ensures
        StoreContents::<RelayerId, Fee>::empty().next_nonce(lane_id) == 1,
        contents.after_send(lane_id, message).after_prune(
            lane_id,
            max_messages_to_prune,
        ).next_nonce(lane_id) == contents.next_nonce(lane_id) + 1,
{
}

/// A message that has been sent is queued under its nonce, and the messages of the lane that wait
/// for a confirmation stay queued as they are.
pub proof fn sent_message_is_queued<RelayerId, Fee>(
    contents: StoreContents<RelayerId, Fee>,
    lane_id: LaneId,
    message: MessageContents<Fee>,
    max_messages_to_prune: MessageNonce,
)
    requires
        contents.outbound_valid(),
        contents.next_nonce(lane_id) <= MessageNonce::MAX,
    ensures
        ({
            let after = contents.after_send(lane_id, message).after_prune(
                lane_id,
                max_messages_to_prune,
            );
            let nonce = contents.next_nonce(lane_id) as MessageNonce;
            &&& after.outbound_message(MessageKey { lane_id, nonce }) == Some(message)
            &&& forall|key: MessageKey|
                key.lane_id == lane_id && contents.outbound_lane(lane_id).latest_received_nonce
                    < key.nonce < nonce ==> #[trigger] after.outbound_message(key)
                    == contents.outbound_message(key)
        }),
{
    assert(contents.outbound_nonces_ordered(lane_id));
}

/// Pruning takes only messages that have been confirmed, and at most as many as it may.
pub proof fn prune_spares_unconfirmed_messages<RelayerId, Fee>(
    contents: StoreContents<RelayerId, Fee>,
    lane_id: LaneId,
    max_messages_to_prune: MessageNonce,
)
    requires
        contents.outbound_valid(),
    ensures
        ({
            let after = contents.after_prune(lane_id, max_messages_to_prune);
            let oldest = contents.outbound_lane(lane_id).oldest_unpruned_nonce;
            let now_oldest = after.outbound_lane(lane_id).oldest_unpruned_nonce;
            &&& oldest <= now_oldest <= oldest + max_messages_to_prune
            &&& forall|key: MessageKey| #[trigger]
                after.outbound_message(key) == if key.lane_id == lane_id && key.nonce
                    < now_oldest {
                    None
                } else {
                    contents.outbound_message(key)
                }
            &&& forall|key: MessageKey|
                key.lane_id == lane_id && key.nonce > contents.outbound_lane(
                    lane_id,
                ).latest_received_nonce ==> #[trigger] after.outbound_message(key)
                    == contents.outbound_message(key)
        }),
{
    assert(contents.outbound_nonces_ordered(lane_id));
}

/// Pruning that may take all confirmed messages leaves none of them.
pub proof fn prune_takes_all_it_may<RelayerId, Fee>(
    contents: StoreContents<RelayerId, Fee>,
    lane_id: LaneId,
    max_messages_to_prune: MessageNonce,
    nonce: MessageNonce,
)
    requires
        contents.outbound_valid(),
        contents.outbound_lane(lane_id).latest_received_nonce < MessageNonce::MAX,
        contents.outbound_lane(lane_id).latest_received_nonce < contents.outbound_lane(
            lane_id,
        ).oldest_unpruned_nonce + max_messages_to_prune,
        nonce <= contents.outbound_lane(lane_id).latest_received_nonce,
    ensures
        contents.after_prune(lane_id, max_messages_to_prune).outbound_message(
            MessageKey { lane_id, nonce },
        ) is None,
{
    assert(contents.outbound_nonces_ordered(lane_id));
    prune_spares_unconfirmed_messages(contents, lane_id, max_messages_to_prune);
}

/// A report of messages that have been confirmed already, or of messages that have never been
/// sent, changes nothing; so the same report made twice is as good as one.
pub proof fn stale_report_changes_nothing<RelayerId, Fee>(
    contents: StoreContents<RelayerId, Fee>,
    lane_id: LaneId,
    latest_received_nonce: MessageNonce,
    reported_nonce: MessageNonce,
    max_messages_to_prune: MessageNonce,
)
    ensures
        ({
            let after = contents.after_delivery_report(
                lane_id,
                latest_received_nonce,
                max_messages_to_prune,
            );
            &&& reported_nonce <= after.outbound_lane(lane_id).latest_received_nonce
                ==> after.after_delivery_report(lane_id, reported_nonce, max_messages_to_prune)
                == after
            &&& reported_nonce > after.outbound_lane(lane_id).latest_generated_nonce
                ==> after.after_delivery_report(lane_id, reported_nonce, max_messages_to_prune)
                == after
            &&& after.after_delivery_report(
                lane_id,
                latest_received_nonce,
                max_messages_to_prune,
            ) == after
        }),
{
}

/// Rewards are for messages of the range that has just been confirmed.
pub proof fn rewards_stay_in_range<AccountId>(
    relayers: Seq<(MessageNonce, MessageNonce, AccountId)>,
    received_range: (MessageNonce, MessageNonce),
)
    ensures
        forall|i: int|
            0 <= i < rewarded(relayers, received_range).len() ==> received_range.0 <= (
            #[trigger] rewarded(relayers, received_range)[i]).1 <= received_range.1,
    decreases relayers.len(),
{
    if relayers.len() > 0 {
        rewards_stay_in_range(relayers.drop_last(), received_range);
        let before = rewarded(relayers.drop_last(), received_range);
        let entry = rewarded_by_entry(relayers.last(), received_range);
        assert forall|i: int| 0 <= i < rewarded(relayers, received_range).len() implies
            received_range.0 <= (#[trigger] rewarded(relayers, received_range)[i]).1
            <= received_range.1 by {
            if i < before.len() {
                assert(rewarded(relayers, received_range)[i] == before[i]);
            } else {
                assert(rewarded(relayers, received_range)[i] == entry[i - before.len()]);
            }
        }
    }
}

/// No message is rewarded by two confirmations.
pub proof fn no_message_is_rewarded_by_two_confirmations<RelayerId, Fee, AccountId>(
    contents: StoreContents<RelayerId, Fee>,
    lane_id: LaneId,
    first: InboundLaneState<AccountId>,
    second: InboundLaneState<AccountId>,
    max_messages_to_prune: MessageNonce,
    i: int,
    j: int,
)
    requires
        contents.outbound_lane(lane_id).can_confirm(first.latest_received_nonce),
        contents.after_delivery_report(
            lane_id,
            first.latest_received_nonce,
            max_messages_to_prune,
        ).outbound_lane(
            lane_id,
        ).can_confirm(second.latest_received_nonce),
        0 <= i < rewarded(
            first.relayers,
            contents.received_range(lane_id, first.latest_received_nonce),
        ).len(),
        0 <= j < rewarded(
            second.relayers,
            contents.after_delivery_report(
            lane_id,
            first.latest_received_nonce,
            max_messages_to_prune,
        ).received_range(
                lane_id,
                second.latest_received_nonce,
            ),
        ).len(),
    ensures
        rewarded(
            first.relayers,
            contents.received_range(lane_id, first.latest_received_nonce),
        )[i].1 < rewarded(
            second.relayers,
            contents.after_delivery_report(
            lane_id,
            first.latest_received_nonce,
            max_messages_to_prune,
        ).received_range(
                lane_id,
                second.latest_received_nonce,
            ),
        )[j].1,
{
    let after = contents.after_delivery_report(
            lane_id,
            first.latest_received_nonce,
            max_messages_to_prune,
        );
    rewards_stay_in_range(
        first.relayers,
        contents.received_range(lane_id, first.latest_received_nonce),
    );
    rewards_stay_in_range(
        second.relayers,
        after.received_range(lane_id, second.latest_received_nonce),
    );
}

/// What the entries up to the `n`-th are rewarded for: the messages of the range up to the last
/// one of the `n`-th entry, each once.
proof fn lemma_rewards_of_entries<AccountId>(
    lane: InboundLaneState<AccountId>,
    begin: MessageNonce,
    n: int,
)
    requires
        lane.well_formed(),
        lane.latest_confirmed_nonce < begin <= lane.latest_received_nonce,
        0 <= n <= lane.relayers.len(),
    ensures
        ({
            let paid = rewarded(lane.relayers.take(n), (begin, lane.latest_received_nonce));
            let end = if n == 0 {
                lane.latest_confirmed_nonce
            } else {
                lane.relayers[n - 1].1
            };
            &&& end <= lane.latest_received_nonce
            &&& paid.len() == if begin <= end {
                end - begin + 1
            } else {
                0
            }
            &&& forall|k: int|
                0 <= k < paid.len() ==> (#[trigger] paid[k]).1 == begin + k && delivered_by(
                    lane,
                    paid[k].1,
                    paid[k].0,
                )
        }),
    decreases n,
{
    if n > 0 {
        lemma_rewards_of_entries(lane, begin, n - 1);
        let range = (begin, lane.latest_received_nonce);
        let before = rewarded(lane.relayers.take(n - 1), range);
        let entry = lane.relayers[n - 1];
        let paid = rewarded(lane.relayers.take(n), range);
        assert(lane.relayers.take(n).drop_last() =~= lane.relayers.take(n - 1));
        assert(lane.relayers.take(n).last() == entry);
        if n > 1 {
            assert(adjoining(lane.relayers, n - 2));
        }
        if n < lane.relayers.len() {
            entries_ascend(lane, n - 1, lane.relayers.len() - 1);
        }
        let now = rewarded_by_entry(entry, range);
        assert(entry.0 <= entry.1);
        assert forall|k: int| 0 <= k < paid.len() implies (#[trigger] paid[k]).1 == begin + k
            && delivered_by(lane, paid[k].1, paid[k].0) by {
            if k < before.len() {
                assert(paid[k] == before[k]);
            } else {
                assert(paid[k] == now[k - before.len()]);
                assert(lane.relayers[n - 1].0 <= paid[k].1 <= lane.relayers[n - 1].1);
            }
        }
    }
}

/// An entry of the lane says that the relayer has delivered the message.
pub open spec fn delivered_by<RelayerId>(
    lane: InboundLaneState<RelayerId>,
    nonce: MessageNonce,
    relayer: RelayerId,
) -> bool {
    exists|i: int|
        {
            &&& 0 <= i < lane.relayers.len()
            &&& (#[trigger] lane.relayers[i]).0 <= nonce <= lane.relayers[i].1
            &&& lane.relayers[i].2 == relayer
        }
}

/// A confirmation by the true state of the lane at the bridged chain rewards the delivery of
/// every message that it confirms exactly once, in the order of the nonces, and the reward goes to
/// the relayer that has delivered the message. The bridged chain may not know of earlier
/// confirmations yet, but it knows of no others.
pub proof fn every_confirmed_message_is_rewarded_once<RelayerId, Fee, AccountId>(
    contents: StoreContents<RelayerId, Fee>,
    lane_id: LaneId,
    lane: InboundLaneState<AccountId>,
)
    requires
        lane.well_formed(),
        contents.outbound_lane(lane_id).can_confirm(lane.latest_received_nonce),
        lane.latest_confirmed_nonce <= contents.outbound_lane(lane_id).latest_received_nonce,
    ensures
        ({
            let range = contents.received_range(lane_id, lane.latest_received_nonce);
            let paid = rewarded(lane.relayers, range);
            &&& paid.len() == range.1 - range.0 + 1
            &&& forall|k: int|
                0 <= k < paid.len() ==> (#[trigger] paid[k]).1 == range.0 + k && delivered_by(
                    lane,
                    paid[k].1,
                    paid[k].0,
                )
        }),
{
    let range = contents.received_range(lane_id, lane.latest_received_nonce);
    lemma_rewards_of_entries(lane, range.0, lane.relayers.len() as int);
    assert(lane.relayers.take(lane.relayers.len() as int) =~= lane.relayers);
}

/// One of the messages has the nonce and the data.
pub open spec fn among<Payload, Fee>(
    messages: Seq<DispatchMessage<Payload, Fee>>,
    message: DispatchMessage<Payload, Fee>,
) -> bool {
    exists|i: int|
        {
            &&& 0 <= i < messages.len()
            &&& (#[trigger] messages[i]).key.nonce == message.key.nonce
            &&& messages[i].data == message.data
        }
}

/// Messages are processed in the order of their nonces: the accepted ones follow right after the
/// latest message that has been received before, with no gap and none twice, and nothing is
/// dispatched that has not come in.
pub proof fn accepted_messages_are_in_order<RelayerId, Fee, Payload, InboundFee>(
    contents: StoreContents<RelayerId, Fee>,
    lane_id: LaneId,
    max_unconfirmed_messages: MessageNonce,
    relayer: RelayerId,
    messages: Seq<DispatchMessage<Payload, InboundFee>>,
)
    ensures
        ({
            let accepted = contents.accepted(lane_id, max_unconfirmed_messages, relayer, messages);
            let received = contents.inbound_lane(lane_id).latest_received_nonce;
            &&& contents.after_deliveries(
                lane_id,
                max_unconfirmed_messages,
                relayer,
                nonces_of(messages),
            ).inbound_lane(lane_id).latest_received_nonce == received + accepted.len()
            &&& forall|k: int|
                0 <= k < accepted.len() ==> {
                    &&& (#[trigger] accepted[k]).key.lane_id == lane_id
                    &&& accepted[k].key.nonce == received + 1 + k
                    &&& among(messages, accepted[k])
                }
        }),
    decreases messages.len(),
{
    if messages.len() > 0 {
        let earlier = messages.drop_last();
        accepted_messages_are_in_order(
            contents,
            lane_id,
            max_unconfirmed_messages,
            relayer,
            earlier,
        );
        assert(nonces_of(messages).drop_last() =~= nonces_of(earlier));
        let before = contents.accepted(lane_id, max_unconfirmed_messages, relayer, earlier);
        let accepted = contents.accepted(lane_id, max_unconfirmed_messages, relayer, messages);
        assert forall|k: int| 0 <= k < accepted.len() implies among(
            messages,
            #[trigger] accepted[k],
        ) by {
            if k < before.len() {
                assert(accepted[k] == before[k]);
                let i = choose|i: int|
                    {
                        &&& 0 <= i < earlier.len()
                        &&& (#[trigger] earlier[i]).key.nonce == before[k].key.nonce
                        &&& earlier[i].data == before[k].data
                    };
                assert(messages[i] == earlier[i]);
            } else {
                assert(messages[messages.len() - 1].data == accepted[k].data);
            }
        }
        assert forall|k: int| 0 <= k < accepted.len() implies (#[trigger] accepted[k]).key.lane_id
            == lane_id && accepted[k].key.nonce == contents.inbound_lane(
            lane_id,
        ).latest_received_nonce + 1 + k by {
            if k < before.len() {
                assert(accepted[k] == before[k]);
            }
        }
    }
}

/// The messages that come next are all accepted, whatever their payloads are, as long as there is
/// room: the relayer that has delivered the latest message needs none, another one needs a free
/// place for its entry.
pub proof fn next_messages_are_accepted<RelayerId, Fee, Payload, InboundFee>(
    contents: StoreContents<RelayerId, Fee>,
    lane_id: LaneId,
    max_unconfirmed_messages: MessageNonce,
    relayer: RelayerId,
    messages: Seq<DispatchMessage<Payload, InboundFee>>,
)
    requires
        ({
            let relayers = contents.inbound_lane(lane_id).relayers;
            ||| messages.len() == 0
            ||| relayers.len() < max_unconfirmed_messages
            ||| relayers.len() == max_unconfirmed_messages && relayers.len() > 0
                && relayers.last().2 == relayer
        }),
        forall|i: int|
            0 <= i < messages.len() ==> (#[trigger] messages[i]).key == (MessageKey {
                lane_id,
                nonce: (contents.inbound_lane(lane_id).latest_received_nonce + 1
                    + i) as MessageNonce,
            }),
        contents.inbound_lane(lane_id).latest_received_nonce + messages.len() <= MessageNonce::MAX,
    ensures
        contents.accepted(lane_id, max_unconfirmed_messages, relayer, messages) == messages,
        contents.after_deliveries(
            lane_id,
            max_unconfirmed_messages,
            relayer,
            nonces_of(messages),
        ).inbound_lane(lane_id).latest_received_nonce == contents.inbound_lane(
            lane_id,
        ).latest_received_nonce + messages.len(),
    decreases messages.len(),
{
    accepted_messages_are_in_order(
        contents,
        lane_id,
        max_unconfirmed_messages,
        relayer,
        messages,
    );
    if messages.len() > 0 {
        let earlier = messages.drop_last();
        next_messages_are_accepted(contents, lane_id, max_unconfirmed_messages, relayer, earlier);
        one_relayer_takes_one_place(
            contents,
            lane_id,
            max_unconfirmed_messages,
            relayer,
            nonces_of(earlier),
        );
        let last = messages[messages.len() - 1];
        assert(contents.accepted(lane_id, max_unconfirmed_messages, relayer, messages)
            =~= earlier.push(last));
        assert(earlier.push(last) =~= messages);
    }
}

/// A continuous range of messages that a single relayer delivers takes one place of the limit at
/// most, and none if the latest entry is of the same relayer.
pub proof fn one_relayer_takes_one_place<RelayerId, Fee>(
    contents: StoreContents<RelayerId, Fee>,
    lane_id: LaneId,
    max_unconfirmed_messages: MessageNonce,
    relayer: RelayerId,
    nonces: Seq<MessageNonce>,
)
    ensures
        ({
            let before = contents.inbound_lane(lane_id).relayers;
            let after = contents.after_deliveries(
                lane_id,
                max_unconfirmed_messages,
                relayer,
                nonces,
            ).inbound_lane(lane_id).relayers;
            &&& before.len() <= after.len() <= before.len() + 1
            &&& after.len() == before.len() + 1 ==> after.last().2 == relayer
            &&& before.len() > 0 && before.last().2 == relayer ==> after.len() == before.len()
                && after.last().2 == relayer
        }),
    decreases nonces.len(),
{
    if nonces.len() > 0 {
        one_relayer_takes_one_place(
            contents,
            lane_id,
            max_unconfirmed_messages,
            relayer,
            nonces.drop_last(),
        );
    }
}

/// The limit of unconfirmed "messages" is never exceeded by deliveries to a lane.
pub proof fn unconfirmed_entries_stay_within_limit<RelayerId, Fee>(
    contents: StoreContents<RelayerId, Fee>,
    lane_id: LaneId,
    max_unconfirmed_messages: MessageNonce,
    relayer: RelayerId,
    nonces: Seq<MessageNonce>,
)
    requires
        contents.inbound_lane(lane_id).relayers.len() <= max_unconfirmed_messages,
    ensures
        contents.after_deliveries(
            lane_id,
            max_unconfirmed_messages,
            relayer,
            nonces,
        ).inbound_lane(lane_id).relayers.len() <= max_unconfirmed_messages,
    decreases nonces.len(),
{
    if nonces.len() > 0 {
        unconfirmed_entries_stay_within_limit(
            contents,
            lane_id,
            max_unconfirmed_messages,
            relayer,
            nonces.drop_last(),
        );
    }
}

/// The limit of unconfirmed "messages" is never exceeded by a proof: if every lane has been within
/// the limit before, every lane is within it after all that the proof holds has come in. That a
/// state of an outbound lane comes in adds no entry.
pub proof fn proof_stays_within_limit<RelayerId, Fee, Payload, InboundFee>(
    contents: StoreContents<RelayerId, Fee>,
    max_unconfirmed_messages: MessageNonce,
    relayer: RelayerId,
    lanes: Seq<(LaneId, ProvedLaneMessages<DispatchMessage<Payload, InboundFee>>)>,
)
    requires
        contents.within_limit(max_unconfirmed_messages),
    ensures
        contents.after_lanes(max_unconfirmed_messages, relayer, lanes).within_limit(
            max_unconfirmed_messages,
        ),
    decreases lanes.len(),
{
    if lanes.len() > 0 {
        let (lane_id, lane) = lanes.last();
        let nonces = nonces_of(lane.messages@);
        proof_stays_within_limit(contents, max_unconfirmed_messages, relayer, lanes.drop_last());
        let before = contents.after_lanes(max_unconfirmed_messages, relayer, lanes.drop_last());
        let between = before.after_lane_state(lane_id, lane.lane_state);
        let after = between.after_deliveries(lane_id, max_unconfirmed_messages, relayer, nonces);
        if let Some(lane_state) = lane.lane_state {
            lemma_unconfirmed_suffix(
                before.inbound_lane(lane_id).relayers,
                lane_state.latest_received_nonce,
            );
        }
        assert(before.inbound_lane(lane_id).relayers.len() <= max_unconfirmed_messages);
        unconfirmed_entries_stay_within_limit(
            between,
            lane_id,
            max_unconfirmed_messages,
            relayer,
            nonces,
        );
        deliveries_touch_one_inbound_lane(
            between,
            lane_id,
            max_unconfirmed_messages,
            relayer,
            nonces,
        );
        assert forall|other: LaneId|
            (#[trigger] after.inbound_lane(other)).relayers.len() <= max_unconfirmed_messages by {
            if other != lane_id {
                assert(between.inbound_lane(other) == before.inbound_lane(other));
            }
        }
    }
}

/// What has once been read of an inbound lane is what is known of it from then on, whatever comes
/// into the storage in between.
pub proof fn kept_data_outlasts_the_storage<RelayerId: Parameter, Fee>(
    storage: RuntimeInboundLaneStorage<RelayerId>,
    contents: StoreContents<RelayerId, Fee>,
    later: StoreContents<RelayerId, Fee>,
)
    requires
        storage.cached_data is Some,
    ensures
        storage.known_data(later) == storage.known_data(contents),
{
}

/// Messages that have been received before are not received again: nothing of them is dispatched,
/// and the storage stays as it is.
pub proof fn received_messages_are_not_received_again<RelayerId, Fee, Payload, InboundFee>(
    contents: StoreContents<RelayerId, Fee>,
    lane_id: LaneId,
    max_unconfirmed_messages: MessageNonce,
    relayer: RelayerId,
    messages: Seq<DispatchMessage<Payload, InboundFee>>,
)
    requires
        forall|i: int|
            0 <= i < messages.len() ==> (#[trigger] messages[i]).key.nonce
                <= contents.inbound_lane(lane_id).latest_received_nonce,
    ensures
        contents.accepted(lane_id, max_unconfirmed_messages, relayer, messages).len() == 0,
        contents.after_deliveries(
            lane_id,
            max_unconfirmed_messages,
            relayer,
            nonces_of(messages),
        ) == contents,
    decreases messages.len(),
{
    if messages.len() > 0 {
        let earlier = messages.drop_last();
        let last = messages[messages.len() - 1];
        received_messages_are_not_received_again(
            contents,
            lane_id,
            max_unconfirmed_messages,
            relayer,
            earlier,
        );
        assert(nonces_of(messages).drop_last() =~= nonces_of(earlier));
        assert(last.key.nonce <= contents.inbound_lane(lane_id).latest_received_nonce);
    }
}

/// The bytes of one message of a proof touch nothing but the payload of that message: if only they
/// change, the lanes, their states, the number and the order of the messages, all keys and fees,
/// and the payloads of all other messages are the same after decoding.
///
/// This is said of proofs of which reading the bytes of any other message has one outcome only.
pub proof fn message_bytes_touch_their_payload_only<Payload: Decode, Fee>(
    lanes: Map<LaneId, ProvedLaneMessages<Message<Fee>>>,
    others: Map<LaneId, ProvedLaneMessages<Message<Fee>>>,
    lane_id: LaneId,
    i: int,
    decoded: Map<LaneId, ProvedLaneMessages<DispatchMessage<Payload, Fee>>>,
    others_decoded: Map<LaneId, ProvedLaneMessages<DispatchMessage<Payload, Fee>>>,
)
    requires
        others_decode_one_way::<Payload, Fee>(lanes, lane_id, i),
        same_but_for_payload_bytes(lanes, others, lane_id, i),
        all_decoded_from(lanes, decoded),
        all_decoded_from(others, others_decoded),
    ensures
        same_but_for_payload(decoded, others_decoded, lane_id, i),
{
    assert forall|id: LaneId| #[trigger] decoded.contains_key(id) implies {
        &&& decoded[id].lane_state == others_decoded[id].lane_state
        &&& decoded[id].messages@.len() == others_decoded[id].messages@.len()
        &&& forall|k: int|
            #![trigger decoded[id].messages@[k]]
            #![trigger others_decoded[id].messages@[k]]
            0 <= k < decoded[id].messages@.len() ==> {
                let message = decoded[id].messages@[k];
                let other = others_decoded[id].messages@[k];
                &&& message.key == other.key
                &&& message.data.fee == other.data.fee
                &&& (id, k) != (lane_id, i) ==> message == other
            }
    } by {
        assert(lanes.contains_key(id) && others.contains_key(id));
        assert forall|k: int|
            #![trigger decoded[id].messages@[k]]
            #![trigger others_decoded[id].messages@[k]]
            0 <= k < decoded[id].messages@.len() implies {
            let message = decoded[id].messages@[k];
            let other = others_decoded[id].messages@[k];
            &&& message.key == other.key
            &&& message.data.fee == other.data.fee
            &&& (id, k) != (lane_id, i) ==> message == other
        } by {
            assert(decoded_from(lanes[id].messages@[k], decoded[id].messages@[k]));
            assert(decoded_from(others[id].messages@[k], others_decoded[id].messages@[k]));
        }
    }
}

/// No message has a say in how another one is decoded, also where reading the same bytes may have
/// several outcomes: what the messages of a proof may decode to is what they may decode to after
/// the bytes of one message have changed, once the payload of that message is exchanged.
pub proof fn messages_decode_on_their_own<Payload: Decode, Fee>(
    lanes: Map<LaneId, ProvedLaneMessages<Message<Fee>>>,
    others: Map<LaneId, ProvedLaneMessages<Message<Fee>>>,
    lane_id: LaneId,
    i: int,
    decoded: Map<LaneId, ProvedLaneMessages<DispatchMessage<Payload, Fee>>>,
    others_decoded: Map<LaneId, ProvedLaneMessages<DispatchMessage<Payload, Fee>>>,
)
    requires
        same_but_for_payload_bytes(lanes, others, lane_id, i),
        all_decoded_from(lanes, decoded),
        same_but_for_payload(decoded, others_decoded, lane_id, i),
        others.contains_key(lane_id) && 0 <= i < others[lane_id].messages@.len() ==> decoded_from(
            others[lane_id].messages@[i],
            others_decoded[lane_id].messages@[i],
        ),
    ensures
        all_decoded_from(others, others_decoded),
{
    assert forall|id: LaneId| #[trigger] others.contains_key(id) implies lane_decoded_from(
        others[id],
        others_decoded[id],
    ) by {
        assert(lanes.contains_key(id) && decoded.contains_key(id));
        assert forall|k: int| 0 <= k < others[id].messages@.len() implies decoded_from(
            others[id].messages@[k],
            #[trigger] others_decoded[id].messages@[k],
        ) by {
            assert(decoded_from(lanes[id].messages@[k], decoded[id].messages@[k]));
        }
    }
}

/// Two proofs that hold the same, except for the bytes of one message, are both answered with
/// messages, and the messages are the same, except for the payload of that message.
///
/// This is said of proofs of which reading the bytes of any other message has one outcome only.
pub proof fn proofs_differ_where_bytes_differ<
    Chain: SourceHeaderChain<Fee>,
    Fee,
    Payload: Decode,
>(
    chain: Chain,
    proof_of_lanes: Chain::MessagesProof,
    proof_of_others: Chain::MessagesProof,
    lanes: Map<LaneId, ProvedLaneMessages<Message<Fee>>>,
    others: Map<LaneId, ProvedLaneMessages<Message<Fee>>>,
    lane_id: LaneId,
    i: int,
    messages: Result<ProvedMessages<DispatchMessage<Payload, Fee>>, Chain::Error>,
    other_messages: Result<ProvedMessages<DispatchMessage<Payload, Fee>>, Chain::Error>,
)
    requires
        others_decode_one_way::<Payload, Fee>(lanes, lane_id, i),
        proves(chain, proof_of_lanes, lanes),
        proves(chain, proof_of_others, others),
        same_but_for_payload_bytes(lanes, others, lane_id, i),
        proof_decoded::<Chain, Fee, Payload>(chain, proof_of_lanes, messages),
        proof_decoded::<Chain, Fee, Payload>(chain, proof_of_others, other_messages),
    ensures
        match (messages, other_messages) {
            (Ok(decoded), Ok(others_decoded)) => same_but_for_payload(
                decoded@,
                others_decoded@,
                lane_id,
                i,
            ),
            _ => false,
        },
{
    if let (Ok(decoded), Ok(others_decoded)) = (messages, other_messages) {
        message_bytes_touch_their_payload_only(
            lanes,
            others,
            lane_id,
            i,
            decoded@,
            others_decoded@,
        );
    }
}

/// What comes in with a proof is received whatever the payloads are: lanes with the same states
/// and the same nonces lead to the same storage.
pub proof fn payloads_do_not_matter<RelayerId, Fee, Payload, InboundFee>(
    contents: StoreContents<RelayerId, Fee>,
    max_unconfirmed_messages: MessageNonce,
    relayer: RelayerId,
    lanes: Seq<(LaneId, ProvedLaneMessages<DispatchMessage<Payload, InboundFee>>)>,
    others: Seq<(LaneId, ProvedLaneMessages<DispatchMessage<Payload, InboundFee>>)>,
)
    requires
        lanes.len() == others.len(),
        forall|i: int|
            #![trigger lanes[i]]
            0 <= i < lanes.len() ==> {
                &&& lanes[i].0 == others[i].0
                &&& lanes[i].1.lane_state == others[i].1.lane_state
                &&& nonces_of(lanes[i].1.messages@) == nonces_of(others[i].1.messages@)
            },
    ensures
        contents.after_lanes(max_unconfirmed_messages, relayer, lanes) == contents.after_lanes(
            max_unconfirmed_messages,
            relayer,
            others,
        ),
    decreases lanes.len(),
{
    if lanes.len() > 0 {
        assert forall|i: int|
            #![trigger lanes.drop_last()[i]]
            0 <= i < lanes.drop_last().len() implies {
            &&& lanes.drop_last()[i].0 == others.drop_last()[i].0
            &&& lanes.drop_last()[i].1.lane_state == others.drop_last()[i].1.lane_state
            &&& nonces_of(lanes.drop_last()[i].1.messages@) == nonces_of(
                others.drop_last()[i].1.messages@,
            )
        } by {
            assert(lanes[i] == lanes.drop_last()[i]);
        }
        payloads_do_not_matter(
            contents,
            max_unconfirmed_messages,
            relayer,
            lanes.drop_last(),
            others.drop_last(),
        );
        assert(lanes[lanes.len() - 1] == lanes.last());
    }
}

/// A confirmation keeps who has delivered the messages that are still to be confirmed, and forgets
/// those that have been confirmed.
pub proof fn confirmation_keeps_unconfirmed_deliveries<RelayerId>(
    lane: InboundLaneState<RelayerId>,
    latest_confirmed_nonce: MessageNonce,
    nonce: MessageNonce,
    relayer: RelayerId,
)
    requires
        lane.well_formed(),
        lane.can_confirm(latest_confirmed_nonce),
    ensures
        delivered_by(lane.confirmed(latest_confirmed_nonce), nonce, relayer) <==> delivered_by(
            lane,
            nonce,
            relayer,
        ) && nonce > latest_confirmed_nonce,
{
    lemma_unconfirmed_entries(lane, latest_confirmed_nonce);
    let after = lane.confirmed(latest_confirmed_nonce);
    lemma_unconfirmed_suffix(lane.relayers, latest_confirmed_nonce);
    let dropped = lane.relayers.len() - after.relayers.len();
    if delivered_by(after, nonce, relayer) {
        let i = choose|i: int|
            {
                &&& 0 <= i < after.relayers.len()
                &&& (#[trigger] after.relayers[i]).0 <= nonce <= after.relayers[i].1
                &&& after.relayers[i].2 == relayer
            };
        if i > 0 {
            entries_ascend(after, 0, i);
            assert(after.relayers[0].0 <= after.relayers[0].1);
        }
        assert(lane.relayers[dropped + i].0 <= nonce <= lane.relayers[dropped + i].1);
    }
    if delivered_by(lane, nonce, relayer) && nonce > latest_confirmed_nonce {
        let i = choose|i: int|
            {
                &&& 0 <= i < lane.relayers.len()
                &&& (#[trigger] lane.relayers[i]).0 <= nonce <= lane.relayers[i].1
                &&& lane.relayers[i].2 == relayer
            };
        if i < dropped {
            assert(lane.relayers[i].1 <= latest_confirmed_nonce);
        }
        assert(after.relayers[i - dropped].0 <= nonce <= after.relayers[i - dropped].1);
    }
}

/// What a confirmation leaves of the entries is a suffix of them, with its first entry cut short.
proof fn lemma_unconfirmed_suffix<RelayerId>(
    relayers: Seq<(MessageNonce, MessageNonce, RelayerId)>,
    latest_confirmed_nonce: MessageNonce,
)
    ensures
        ({
            let rest = unconfirmed_entries(relayers, latest_confirmed_nonce);
            let dropped = relayers.len() - rest.len();
            &&& 0 <= dropped
            &&& forall|i: int|
                0 <= i < dropped ==> (#[trigger] relayers[i]).1 <= latest_confirmed_nonce
            &&& forall|i: int|
                0 <= i < rest.len() ==> {
                    &&& (#[trigger] rest[i]).1 == relayers[dropped + i].1
                    &&& rest[i].2 == relayers[dropped + i].2
                    &&& rest[i].0 == relayers[dropped + i].0 || {
                        &&& i == 0
                        &&& relayers[dropped].0 <= latest_confirmed_nonce < relayers[dropped].1
                        &&& rest[i].0 == latest_confirmed_nonce + 1
                    }
                }
        }),
    decreases relayers.len(),
{
    if relayers.len() > 0 && relayers[0].1 <= latest_confirmed_nonce {
        let tail = relayers.drop_first();
        lemma_unconfirmed_suffix(tail, latest_confirmed_nonce);
        let rest = unconfirmed_entries(relayers, latest_confirmed_nonce);
        let dropped = relayers.len() - rest.len();
        assert forall|i: int| 0 <= i < dropped implies (#[trigger] relayers[i]).1
            <= latest_confirmed_nonce by {
            if i > 0 {
                assert(tail[i - 1] == relayers[i]);
            }
        }
        assert forall|i: int| 0 <= i < rest.len() implies tail[dropped - 1 + i]
            == #[trigger] relayers[dropped + i] by {}
    }
}

/// Nonces of a lane never go back.
pub proof fn inbound_nonces_never_go_back<RelayerId, Fee>(
    contents: StoreContents<RelayerId, Fee>,
    lane_id: LaneId,
    lane_state: Option<OutboundLaneData>,
    max_unconfirmed_messages: MessageNonce,
    relayer: RelayerId,
    nonces: Seq<MessageNonce>,
)
    ensures
        ({
            let before = contents.inbound_lane(lane_id);
            let after = contents.after_lane_state(lane_id, lane_state).after_deliveries(
                lane_id,
                max_unconfirmed_messages,
                relayer,
                nonces,
            ).inbound_lane(lane_id);
            &&& before.latest_received_nonce <= after.latest_received_nonce
            &&& before.latest_confirmed_nonce <= after.latest_confirmed_nonce
        }),
    decreases nonces.len(),
{
    if nonces.len() > 0 {
        inbound_nonces_never_go_back(
            contents,
            lane_id,
            lane_state,
            max_unconfirmed_messages,
            relayer,
            nonces.drop_last(),
        );
    }
}

/// Nonces of an outbound lane never go back.
pub proof fn outbound_nonces_never_go_back<RelayerId, Fee>(
    contents: StoreContents<RelayerId, Fee>,
    lane_id: LaneId,
    message: MessageContents<Fee>,
    max_messages_to_prune: MessageNonce,
    latest_received_nonce: MessageNonce,
)
    requires
        contents.outbound_valid(),
        contents.next_nonce(lane_id) <= MessageNonce::MAX,
    ensures
        ({
            let before = contents.outbound_lane(lane_id);
            let sent = contents.after_send(lane_id, message).after_prune(
                lane_id,
                max_messages_to_prune,
            ).outbound_lane(lane_id);
            let confirmed = contents.after_delivery_report(
                lane_id,
                latest_received_nonce,
                max_messages_to_prune,
            ).outbound_lane(lane_id);
            &&& before.oldest_unpruned_nonce <= sent.oldest_unpruned_nonce
            &&& before.latest_received_nonce == sent.latest_received_nonce
            &&& before.latest_generated_nonce < sent.latest_generated_nonce
            &&& before.oldest_unpruned_nonce <= confirmed.oldest_unpruned_nonce
            &&& before.latest_received_nonce <= confirmed.latest_received_nonce
            &&& before.latest_generated_nonce == confirmed.latest_generated_nonce
        }),
{
    assert(contents.outbound_nonces_ordered(lane_id));
}

/// A call that has been sent is what its decoded message holds at the other end: the message that
/// is queued for it decodes to the call, with its fee.
pub proof fn sent_call_is_what_arrives<RelayerId, Fee>(
    contents: StoreContents<RelayerId, Fee>,
    lane_id: LaneId,
    call: (u64, Weight),
    bytes: Seq<u8>,
    fee: Fee,
    max_messages_to_prune: MessageNonce,
    message: Message<Fee>,
    decoded: DispatchMessage<(u64, Weight), Fee>,
)
    requires
        contents.outbound_valid(),
        contents.next_nonce(lane_id) <= MessageNonce::MAX,
        call.encodes_to(bytes),
        message.key == (MessageKey {
            lane_id,
            nonce: contents.next_nonce(lane_id) as MessageNonce,
        }),
        contents.after_send(lane_id, MessageContents { payload: bytes, fee }).after_prune(
            lane_id,
            max_messages_to_prune,
        ).outbound_message(message.key) == Some(message.data@),
        decoded_from(message, decoded),
    ensures
        decoded.key == message.key,
        decoded.data.fee == fee,
        decoded.data.payload == Ok::<(u64, Weight), DecodeError>(call),
{
    sent_message_is_queued(
        contents,
        lane_id,
        MessageContents { payload: bytes, fee },
        max_messages_to_prune,
    );
    encoded_call_is_read_back(call, bytes, decoded.data.payload);
}

} // verus!
