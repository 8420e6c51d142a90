//! What single lanes promise, and the storage that they are kept in.
use crate::inbound_lane::{adjoining, unconfirmed_entries};
use crate::laws::delivered_by;
use crate::primitives::{
    InboundLaneData, InboundLaneState, LaneId, MessageContents, MessageData, MessageKey,
    MessageNonce, OutboundLaneData, Parameter,
};
use crate::runtime_storage::RuntimeInboundLaneStorage;
use crate::store::StoreContents;
use vstd::prelude::*;

verus! {

/// What has never been written reads as the start of a lane: nothing has been received, confirmed
/// or generated, and the first message will have nonce 1. What has been written is read as it is.
pub proof fn lanes_start_at_zero<RelayerId, Fee>(
    contents: StoreContents<RelayerId, Fee>,
    lane_id: LaneId,
    key: MessageKey,
)
    ensures
        contents.inbound_lanes.contains_key(lane_id) ==> contents.inbound_lane(lane_id)
            == contents.inbound_lanes[lane_id],
        !contents.inbound_lanes.contains_key(lane_id) ==> {
            &&& contents.inbound_lane(lane_id).relayers.len() == 0
            &&& contents.inbound_lane(lane_id).latest_received_nonce == 0
            &&& contents.inbound_lane(lane_id).latest_confirmed_nonce == 0
        },
        contents.outbound_lanes.contains_key(lane_id) ==> contents.outbound_lane(lane_id)
            == contents.outbound_lanes[lane_id],
        !contents.outbound_lanes.contains_key(lane_id) ==> {
            &&& contents.outbound_lane(lane_id).oldest_unpruned_nonce == 1
            &&& contents.outbound_lane(lane_id).latest_received_nonce == 0
            &&& contents.outbound_lane(lane_id).latest_generated_nonce == 0
        },
        contents.outbound_message(key) is Some <==> contents.outbound_messages.contains_key(key),
        contents.outbound_message(key) matches Some(message) ==> message
            == contents.outbound_messages[key],
        contents.next_nonce(lane_id) == contents.outbound_lane(lane_id).latest_generated_nonce + 1,
{
}

/// A write is read back, and it changes nothing else.
pub proof fn writes_are_read_back<RelayerId, Fee>(
    contents: StoreContents<RelayerId, Fee>,
    lane_id: LaneId,
    inbound: InboundLaneState<RelayerId>,
    outbound: OutboundLaneData,
    key: MessageKey,
    message: MessageContents<Fee>,
)
    ensures
        ({
            let after = contents.with_inbound_lane(lane_id, inbound);
            &&& after.outbound_lanes == contents.outbound_lanes
            &&& after.outbound_messages == contents.outbound_messages
            &&& forall|id: LaneId| #[trigger]
                after.inbound_lane(id) == if id == lane_id {
                    inbound
                } else {
                    contents.inbound_lane(id)
                }
        }),
        ({
            let after = contents.with_outbound_lane(lane_id, outbound);
            &&& after.inbound_lanes == contents.inbound_lanes
            &&& after.outbound_messages == contents.outbound_messages
            &&& forall|id: LaneId| #[trigger]
                after.outbound_lane(id) == if id == lane_id {
                    outbound
                } else {
                    contents.outbound_lane(id)
                }
        }),
        ({
            let after = contents.with_message(key, message);
            &&& after.inbound_lanes == contents.inbound_lanes
            &&& after.outbound_lanes == contents.outbound_lanes
            &&& forall|other: MessageKey| #[trigger]
                after.outbound_message(other) == if other == key {
                    Some(message)
                } else {
                    contents.outbound_message(other)
                }
        }),
        ({
            let after = contents.without_message(key);
            &&& after.inbound_lanes == contents.inbound_lanes
            &&& after.outbound_lanes == contents.outbound_lanes
            &&& forall|other: MessageKey| #[trigger]
                after.outbound_message(other) == if other == key {
                    None
                } else {
                    contents.outbound_message(other)
                }
        }),
{
}

/// A storage whose lane has been read knows what it has read; one that has not knows what is
/// stored.
pub proof fn known_data_is_kept_or_stored<RelayerId: Parameter, Fee>(
    storage: RuntimeInboundLaneStorage<RelayerId>,
    contents: StoreContents<RelayerId, Fee>,
)
    ensures
        storage.cached_data matches Some(kept) ==> storage.known_data(contents) == kept@,
        storage.cached_data is None ==> storage.known_data(contents) == contents.inbound_lane(
            storage.lane_id,
        ),
        forall|data: InboundLaneState<RelayerId>| #[trigger]
            storage.keeps(data) ==> storage.known_data(contents) == data,
{
}

/// Nothing is left out of what lane data and message data stand for.
pub proof fn data_stands_for_its_fields<RelayerId, Fee>(
    lane: InboundLaneData<RelayerId>,
    message: MessageData<Fee>,
)
    ensures
        lane@.relayers == lane.relayers@,
        lane@.latest_received_nonce == lane.latest_received_nonce,
        lane@.latest_confirmed_nonce == lane.latest_confirmed_nonce,
        message@.payload == message.payload@,
        message@.fee == message.fee,
{
}

/// A new storage holds no lane and no message.
pub proof fn empty_storage_holds_nothing<RelayerId, Fee>(lane_id: LaneId, key: MessageKey)
    ensures
        ({
            let contents = StoreContents::<RelayerId, Fee>::empty();
            &&& !contents.inbound_lanes.contains_key(lane_id)
            &&& !contents.outbound_lanes.contains_key(lane_id)
            &&& !contents.outbound_messages.contains_key(key)
        }),
{
}

/// A message that is sent gets the nonce after the latest one and is queued under it; nothing else
/// changes.
pub proof fn sending_queues_under_the_next_nonce<RelayerId, Fee>(
    contents: StoreContents<RelayerId, Fee>,
    lane_id: LaneId,
    message: MessageContents<Fee>,
)
    requires
        contents.outbound_lane(lane_id).latest_generated_nonce < MessageNonce::MAX,
    ensures
        ({
            let before = contents.outbound_lane(lane_id);
            let after = contents.after_send(lane_id, message);
            let nonce = (before.latest_generated_nonce + 1) as MessageNonce;
            &&& after.inbound_lanes == contents.inbound_lanes
            &&& after.outbound_lane(lane_id).latest_generated_nonce == nonce
            &&& after.outbound_lane(lane_id).latest_received_nonce == before.latest_received_nonce
            &&& after.outbound_lane(lane_id).oldest_unpruned_nonce == before.oldest_unpruned_nonce
            &&& forall|id: LaneId|
                id != lane_id ==> #[trigger] after.outbound_lane(id) == contents.outbound_lane(id)
            &&& forall|key: MessageKey| #[trigger]
                after.outbound_message(key) == if key == (MessageKey { lane_id, nonce }) {
                    Some(message)
                } else {
                    contents.outbound_message(key)
                }
        }),
{
}

/// A report of any nonce after the latest received and up to the latest generated one is taken: the
/// nonce becomes the latest received one, and the range from the one after the old latest received
/// nonce up to it is what the report brings. Any other report changes nothing.
pub proof fn reports_of_generated_messages_are_taken<RelayerId, Fee>(
    contents: StoreContents<RelayerId, Fee>,
    lane_id: LaneId,
    nonce: MessageNonce,
)
    ensures
        ({
            let before = contents.outbound_lane(lane_id);
            let after = contents.after_confirmation(lane_id, nonce);
            if before.latest_received_nonce < nonce <= before.latest_generated_nonce {
                &&& before.can_confirm(nonce)
                &&& contents.received_range(lane_id, nonce).0 == before.latest_received_nonce + 1
                &&& contents.received_range(lane_id, nonce).1 == nonce
                &&& after.outbound_lane(lane_id).latest_received_nonce == nonce
                &&& after.outbound_lane(lane_id).latest_generated_nonce
                    == before.latest_generated_nonce
                &&& after.outbound_lane(lane_id).oldest_unpruned_nonce
                    == before.oldest_unpruned_nonce
                &&& after.inbound_lanes == contents.inbound_lanes
                &&& after.outbound_messages == contents.outbound_messages
                &&& forall|id: LaneId|
                    id != lane_id ==> #[trigger] after.outbound_lane(id)
                        == contents.outbound_lane(id)
            } else {
                &&& !before.can_confirm(nonce)
                &&& after == contents
            }
        }),
{
}

/// Pruning takes the oldest messages, as many as have been received and as it may, and no others.
/// (Where all nonces have been received, the message with the greatest nonce stays.)
pub proof fn pruning_takes_the_oldest_received_messages<RelayerId, Fee>(
    contents: StoreContents<RelayerId, Fee>,
    lane_id: LaneId,
    max_messages_to_prune: MessageNonce,
)
    ensures
        ({
            let before = contents.outbound_lane(lane_id);
            let after = contents.after_prune(lane_id, max_messages_to_prune);
            let oldest = after.outbound_lane(lane_id).oldest_unpruned_nonce;
            let taken = oldest - before.oldest_unpruned_nonce;
            &&& before.prunable(max_messages_to_prune) == taken
            &&& 0 <= taken <= max_messages_to_prune
            &&& taken > 0 ==> oldest <= before.latest_received_nonce + 1
            &&& taken < max_messages_to_prune ==> oldest > before.latest_received_nonce || oldest
                == MessageNonce::MAX
            &&& after.outbound_lane(lane_id).latest_received_nonce == before.latest_received_nonce
            &&& after.outbound_lane(lane_id).latest_generated_nonce == before.latest_generated_nonce
            &&& after.inbound_lanes == contents.inbound_lanes
            &&& forall|id: LaneId|
                id != lane_id ==> #[trigger] after.outbound_lane(id) == contents.outbound_lane(id)
            &&& forall|key: MessageKey| #[trigger]
                after.outbound_message(key) == if key.lane_id == lane_id
                    && before.oldest_unpruned_nonce <= key.nonce < oldest {
                    None
                } else {
                    contents.outbound_message(key)
                }
        }),
{
}

/// A report that is taken marks the messages and prunes the lane; any other changes nothing.
pub proof fn reports_mark_and_prune<RelayerId, Fee>(
    contents: StoreContents<RelayerId, Fee>,
    lane_id: LaneId,
    nonce: MessageNonce,
    max_messages_to_prune: MessageNonce,
)
    ensures
        ({
            let before = contents.outbound_lane(lane_id);
            let after = contents.after_delivery_report(lane_id, nonce, max_messages_to_prune);
            let oldest = after.outbound_lane(lane_id).oldest_unpruned_nonce;
            let taken = oldest - before.oldest_unpruned_nonce;
            if before.latest_received_nonce < nonce <= before.latest_generated_nonce {
                &&& after.outbound_lane(lane_id).latest_received_nonce == nonce
                &&& after.outbound_lane(lane_id).latest_generated_nonce
                    == before.latest_generated_nonce
                &&& 0 <= taken <= max_messages_to_prune
                &&& taken > 0 ==> oldest <= nonce + 1
                &&& taken < max_messages_to_prune ==> oldest > nonce || oldest == MessageNonce::MAX
                &&& after.inbound_lanes == contents.inbound_lanes
                &&& forall|id: LaneId|
                    id != lane_id ==> #[trigger] after.outbound_lane(id)
                        == contents.outbound_lane(id)
                &&& forall|key: MessageKey| #[trigger]
                    after.outbound_message(key) == if key.lane_id == lane_id
                        && before.oldest_unpruned_nonce <= key.nonce < oldest {
                        None
                    } else {
                        contents.outbound_message(key)
                    }
            } else {
                after == contents
            }
        }),
{
    pruning_takes_the_oldest_received_messages(
        contents.after_confirmation(lane_id, nonce),
        lane_id,
        max_messages_to_prune,
    );
}

/// The outbound part is valid exactly if of each lane what has been pruned has been received, what
/// has been received has been generated, and the queue holds what has been generated and not been
/// pruned.
pub proof fn outbound_validity_is_about_nonces<RelayerId, Fee>(
    contents: StoreContents<RelayerId, Fee>,
)
    ensures
        contents.outbound_valid() <==> {
            &&& forall|id: LaneId|
                {
                    &&& 1 <= (#[trigger] contents.outbound_lane(id)).oldest_unpruned_nonce
                    &&& contents.outbound_lane(id).oldest_unpruned_nonce <= contents.outbound_lane(
                        id,
                    ).latest_received_nonce + 1
                    &&& contents.outbound_lane(id).latest_received_nonce <= contents.outbound_lane(
                        id,
                    ).latest_generated_nonce
                }
            &&& forall|key: MessageKey| #[trigger]
                contents.outbound_messages.contains_key(key) <==> contents.outbound_lane(
                    key.lane_id,
                ).oldest_unpruned_nonce <= key.nonce <= contents.outbound_lane(
                    key.lane_id,
                ).latest_generated_nonce
        },
        contents.unconfirmed_queued() <==> forall|key: MessageKey|
            contents.outbound_lane(key.lane_id).latest_received_nonce < key.nonce
                <= contents.outbound_lane(key.lane_id).latest_generated_nonce ==> #[trigger]
            contents.outbound_messages.contains_key(key),
{
    if contents.outbound_valid() {
        assert forall|id: LaneId|
            {
                &&& 1 <= (#[trigger] contents.outbound_lane(id)).oldest_unpruned_nonce
                &&& contents.outbound_lane(id).oldest_unpruned_nonce <= contents.outbound_lane(
                    id,
                ).latest_received_nonce + 1
                &&& contents.outbound_lane(id).latest_received_nonce <= contents.outbound_lane(
                    id,
                ).latest_generated_nonce
            } by {
            assert(contents.outbound_nonces_ordered(id));
        }
    }
}

/// The entries of the lane follow one another without a gap and end with the latest received
/// message.
pub open spec fn entries_follow_on<RelayerId>(lane: InboundLaneState<RelayerId>) -> bool {
    &&& forall|i: int|
        0 <= i < lane.relayers.len() ==> (#[trigger] lane.relayers[i]).0 <= lane.relayers[i].1
    &&& forall|i: int, j: int|
        0 <= i < lane.relayers.len() && j == i + 1 && j < lane.relayers.len()
            ==> (#[trigger] lane.relayers[i]).1 + 1 == (#[trigger] lane.relayers[j]).0
    &&& lane.relayers.len() > 0 ==> lane.relayers[lane.relayers.len() - 1].1
        == lane.latest_received_nonce
}

/// The entries ascend.
pub proof fn lemma_entries_ascend<RelayerId>(lane: InboundLaneState<RelayerId>, i: int, j: int)
    requires
        entries_follow_on(lane),
        0 <= i < j < lane.relayers.len(),
    ensures
        lane.relayers[i].1 < lane.relayers[j].0,
    decreases j,
{
    assert(lane.relayers[j - 1].1 + 1 == lane.relayers[j].0);
    if i < j - 1 {
        lemma_entries_ascend(lane, i, j - 1);
        assert(lane.relayers[j - 1].0 <= lane.relayers[j - 1].1);
    }
}

/// A message is accepted exactly if it is the next one and there is room: the relayer of the latest
/// entry needs room for the entries that there are, another one for one more.
pub proof fn next_message_is_accepted_if_there_is_room<RelayerId>(
    lane: InboundLaneState<RelayerId>,
    max_unconfirmed_messages: MessageNonce,
    relayer: RelayerId,
    nonce: MessageNonce,
)
    ensures
        lane.accepts(max_unconfirmed_messages, relayer, nonce) <==> {
            &&& nonce == lane.latest_received_nonce + 1
            &&& if lane.relayers.len() > 0 && lane.relayers[lane.relayers.len() - 1].2 == relayer {
                lane.relayers.len() <= max_unconfirmed_messages
            } else {
                lane.relayers.len() < max_unconfirmed_messages
            }
        },
{
}

/// A message that is received is booked for the relayer that has delivered it and for no other, and
/// who has delivered the earlier messages stays as it is. A relayer that has delivered the message
/// before it too keeps its one entry; another one gets an entry of its own.
pub proof fn message_is_booked_for_its_relayer<RelayerId>(
    lane: InboundLaneState<RelayerId>,
    relayer: RelayerId,
    nonce: MessageNonce,
)
    requires
        entries_follow_on(lane),
        nonce == lane.latest_received_nonce + 1,
    ensures
        ({
            let after = lane.with_delivery(relayer, nonce);
            let entries = lane.relayers.len();
            let is_same = entries > 0 && lane.relayers[entries - 1].2 == relayer;
            &&& after.latest_received_nonce == nonce
            &&& after.latest_confirmed_nonce == lane.latest_confirmed_nonce
            &&& after.relayers.len() == if is_same {
                entries
            } else {
                entries + 1
            }
            &&& entries_follow_on(after)
            &&& forall|n: MessageNonce, r: RelayerId| #[trigger]
                delivered_by(after, n, r) <==> delivered_by(lane, n, r) || (n == nonce && r
                    == relayer)
            &&& forall|r: RelayerId| #[trigger]
                delivered_by(after, nonce, r) ==> r == relayer
        }),
{
    let after = lane.with_delivery(relayer, nonce);
    let entries = lane.relayers.len();
    let is_same = entries > 0 && lane.relayers[entries - 1].2 == relayer;
    if is_same {
        assert(lane.relayers[entries - 1].0 <= lane.relayers[entries - 1].1);
    }
    assert forall|i: int| 0 <= i < after.relayers.len() implies (#[trigger] after.relayers[i]).0
        <= after.relayers[i].1 by {
        if i < entries {
            assert(lane.relayers[i].0 <= lane.relayers[i].1);
        }
    }
    assert forall|i: int, j: int|
        0 <= i < after.relayers.len() && j == i + 1 && j < after.relayers.len() implies (
    #[trigger] after.relayers[i]).1 + 1 == (#[trigger] after.relayers[j]).0 by {
        if j < entries {
            assert(lane.relayers[i].1 + 1 == lane.relayers[j].0);
        }
    }
    assert forall|n: MessageNonce, r: RelayerId| #[trigger]
        delivered_by(after, n, r) <==> delivered_by(lane, n, r) || (n == nonce && r == relayer) by {
        if delivered_by(after, n, r) {
            let i = choose|i: int|
                {
                    &&& 0 <= i < after.relayers.len()
                    &&& (#[trigger] after.relayers[i]).0 <= n <= after.relayers[i].1
                    &&& after.relayers[i].2 == r
                };
            if i < entries && n != nonce {
                assert(lane.relayers[i].0 <= n <= lane.relayers[i].1);
            }
            if i < entries && n == nonce && i < entries - 1 {
                lemma_entries_ascend(lane, i, entries - 1);
                assert(lane.relayers[entries - 1].0 <= lane.relayers[entries - 1].1);
                assert(lane.relayers[i] == after.relayers[i]);
            }
        }
        if delivered_by(lane, n, r) {
            let i = choose|i: int|
                {
                    &&& 0 <= i < lane.relayers.len()
                    &&& (#[trigger] lane.relayers[i]).0 <= n <= lane.relayers[i].1
                    &&& lane.relayers[i].2 == r
                };
            assert(after.relayers[i].0 <= n <= after.relayers[i].1);
        }
        if n == nonce && r == relayer {
            let i = after.relayers.len() - 1;
            assert(after.relayers[i].0 <= n <= after.relayers[i].1);
        }
    }
    assert forall|r: RelayerId| #[trigger] delivered_by(after, nonce, r) implies r == relayer by {
        if delivered_by(lane, nonce, r) {
            let i = choose|i: int|
                {
                    &&& 0 <= i < lane.relayers.len()
                    &&& (#[trigger] lane.relayers[i]).0 <= nonce <= lane.relayers[i].1
                    &&& lane.relayers[i].2 == r
                };
            if i < entries - 1 {
                lemma_entries_ascend(lane, i, entries - 1);
                assert(lane.relayers[entries - 1].0 <= lane.relayers[entries - 1].1);
            }
        }
    }
}

/// A message that is received extends the latest entry if that is of the same relayer, and adds an
/// entry if it is not; all other entries stay as they are, whatever they hold.
pub proof fn message_extends_or_adds_one_entry<RelayerId>(
    lane: InboundLaneState<RelayerId>,
    relayer: RelayerId,
    nonce: MessageNonce,
)
    ensures
        ({
            let after = lane.with_delivery(relayer, nonce);
            let entries = lane.relayers.len();
            let last = after.relayers[after.relayers.len() - 1];
            &&& after.latest_received_nonce == nonce
            &&& after.latest_confirmed_nonce == lane.latest_confirmed_nonce
            &&& last.1 == nonce
            &&& last.2 == relayer
            &&& if entries > 0 && lane.relayers[entries - 1].2 == relayer {
                &&& after.relayers.len() == entries
                &&& last.0 == lane.relayers[entries - 1].0
                &&& forall|i: int|
                    0 <= i < entries - 1 ==> #[trigger] after.relayers[i] == lane.relayers[i]
            } else {
                &&& after.relayers.len() == entries + 1
                &&& last.0 == nonce
                &&& forall|i: int|
                    0 <= i < entries ==> #[trigger] after.relayers[i] == lane.relayers[i]
            }
        }),
{
}

/// A confirmation drops the entries in front that end with confirmed messages and cuts confirmed
/// messages off the entry that is then in front; all other entries stay as they are, whatever they
/// hold.
pub proof fn confirmation_drops_entries_in_front<RelayerId>(
    lane: InboundLaneState<RelayerId>,
    nonce: MessageNonce,
)
    ensures
        ({
            let after = lane.confirmed(nonce);
            let entries = lane.relayers.len();
            let dropped = entries - after.relayers.len();
            &&& after.latest_confirmed_nonce == nonce
            &&& after.latest_received_nonce == lane.latest_received_nonce
            &&& 0 <= dropped
            &&& forall|i: int| 0 <= i < dropped ==> (#[trigger] lane.relayers[i]).1 <= nonce
            &&& dropped < entries ==> {
                &&& lane.relayers[dropped].1 > nonce
                &&& after.relayers[0].0 == if lane.relayers[dropped].0 <= nonce {
                    nonce + 1
                } else {
                    lane.relayers[dropped].0 as int
                }
                &&& after.relayers[0].1 == lane.relayers[dropped].1
                &&& after.relayers[0].2 == lane.relayers[dropped].2
            }
            &&& forall|i: int|
                0 < i < after.relayers.len() ==> #[trigger] after.relayers[i]
                    == lane.relayers[dropped + i]
        }),
    decreases lane.relayers.len(),
{
    if lane.relayers.len() > 0 && lane.relayers[0].1 <= nonce {
        let tail = InboundLaneState { relayers: lane.relayers.drop_first(), ..lane };
        confirmation_drops_entries_in_front(tail, nonce);
        let after = lane.confirmed(nonce);
        let dropped = lane.relayers.len() - after.relayers.len();
        assert(after.relayers == tail.confirmed(nonce).relayers);
        assert forall|i: int| 0 <= i < dropped implies (#[trigger] lane.relayers[i]).1 <= nonce by {
            if i > 0 {
                assert(tail.relayers[i - 1] == lane.relayers[i]);
            }
        }
        assert forall|i: int| 0 < i < after.relayers.len() implies #[trigger] after.relayers[i]
            == lane.relayers[dropped + i] by {
            assert(after.relayers[i] == tail.relayers[dropped - 1 + i]);
        }
    }
}

/// A message that comes in is received by its lane if it is accepted, and changes nothing if not.
pub proof fn accepted_messages_are_received<RelayerId, Fee>(
    contents: StoreContents<RelayerId, Fee>,
    lane_id: LaneId,
    max_unconfirmed_messages: MessageNonce,
    relayer: RelayerId,
    nonce: MessageNonce,
)
    ensures
        ({
            let lane = contents.inbound_lane(lane_id);
            let after = contents.after_message(lane_id, max_unconfirmed_messages, relayer, nonce);
            let has_room = if lane.relayers.len() > 0 && lane.relayers[lane.relayers.len() - 1].2
                == relayer {
                lane.relayers.len() <= max_unconfirmed_messages
            } else {
                lane.relayers.len() < max_unconfirmed_messages
            };
            if nonce == lane.latest_received_nonce + 1 && has_room {
                &&& after.inbound_lane(lane_id) == lane.with_delivery(relayer, nonce)
                &&& after.outbound_lanes == contents.outbound_lanes
                &&& after.outbound_messages == contents.outbound_messages
                &&& forall|id: LaneId|
                    id != lane_id ==> #[trigger] after.inbound_lane(id) == contents.inbound_lane(id)
            } else {
                after == contents
            }
        }),
{
    next_message_is_accepted_if_there_is_room(
        contents.inbound_lane(lane_id),
        max_unconfirmed_messages,
        relayer,
        nonce,
    );
}

/// What a confirmation leaves of entries that follow on.
proof fn lemma_unconfirmed_entries_follow_on<RelayerId>(
    lane: InboundLaneState<RelayerId>,
    nonce: MessageNonce,
)
    requires
        entries_follow_on(lane),
        nonce <= lane.latest_received_nonce,
    ensures
        ({
            let rest = unconfirmed_entries(lane.relayers, nonce);
            let after = InboundLaneState { relayers: rest, ..lane };
            &&& entries_follow_on(after)
            &&& rest.len() <= lane.relayers.len()
            &&& forall|n: MessageNonce, r: RelayerId| #[trigger]
                delivered_by(after, n, r) <==> delivered_by(lane, n, r) && n > nonce
        }),
    decreases lane.relayers.len(),
{
    let entries = lane.relayers.len();
    let rest = unconfirmed_entries(lane.relayers, nonce);
    let after = InboundLaneState { relayers: rest, ..lane };
    if entries == 0 {
        assert(rest =~= lane.relayers);
    } else if lane.relayers[0].1 <= nonce {
        let tail = InboundLaneState { relayers: lane.relayers.drop_first(), ..lane };
        assert forall|i: int| 0 <= i < tail.relayers.len() implies (#[trigger] tail.relayers[i]).0
            <= tail.relayers[i].1 by {
            assert(tail.relayers[i] == lane.relayers[i + 1]);
        }
        assert forall|i: int, j: int|
            0 <= i < tail.relayers.len() && j == i + 1 && j < tail.relayers.len() implies (
        #[trigger] tail.relayers[i]).1 + 1 == (#[trigger] tail.relayers[j]).0 by {
            assert(lane.relayers[i + 1].1 + 1 == lane.relayers[j + 1].0);
        }
        lemma_unconfirmed_entries_follow_on(tail, nonce);
        assert forall|n: MessageNonce, r: RelayerId| #[trigger]
            delivered_by(after, n, r) <==> delivered_by(lane, n, r) && n > nonce by {
            if delivered_by(tail, n, r) {
                let i = choose|i: int|
                    {
                        &&& 0 <= i < tail.relayers.len()
                        &&& (#[trigger] tail.relayers[i]).0 <= n <= tail.relayers[i].1
                        &&& tail.relayers[i].2 == r
                    };
                assert(lane.relayers[i + 1].0 <= n <= lane.relayers[i + 1].1);
            }
            if delivered_by(lane, n, r) && n > nonce {
                let i = choose|i: int|
                    {
                        &&& 0 <= i < lane.relayers.len()
                        &&& (#[trigger] lane.relayers[i]).0 <= n <= lane.relayers[i].1
                        &&& lane.relayers[i].2 == r
                    };
                assert(i > 0);
                assert(tail.relayers[i - 1].0 <= n <= tail.relayers[i - 1].1);
            }
        }
    } else {
        assert forall|i: int| 0 < i < entries implies #[trigger] rest[i] == lane.relayers[i] by {}
        assert forall|i: int| 0 <= i < rest.len() implies (#[trigger] rest[i]).0 <= rest[i].1 by {
            assert(lane.relayers[i].0 <= lane.relayers[i].1);
        }
        assert forall|i: int, j: int|
            0 <= i < rest.len() && j == i + 1 && j < rest.len() implies (#[trigger] rest[i]).1 + 1
            == (#[trigger] rest[j]).0 by {
            assert(lane.relayers[i].1 + 1 == lane.relayers[j].0);
        }
        assert forall|n: MessageNonce, r: RelayerId| #[trigger]
            delivered_by(after, n, r) <==> delivered_by(lane, n, r) && n > nonce by {
            if delivered_by(after, n, r) {
                let i = choose|i: int|
                    {
                        &&& 0 <= i < after.relayers.len()
                        &&& (#[trigger] after.relayers[i]).0 <= n <= after.relayers[i].1
                        &&& after.relayers[i].2 == r
                    };
                if i > 0 {
                    lemma_entries_ascend(lane, 0, i);
                    assert(lane.relayers[i].0 <= n);
                }
                assert(lane.relayers[i].0 <= n <= lane.relayers[i].1);
            }
            if delivered_by(lane, n, r) && n > nonce {
                let i = choose|i: int|
                    {
                        &&& 0 <= i < lane.relayers.len()
                        &&& (#[trigger] lane.relayers[i]).0 <= n <= lane.relayers[i].1
                        &&& lane.relayers[i].2 == r
                    };
                assert(after.relayers[i].0 <= n <= after.relayers[i].1);
            }
        }
    }
}

/// The state of the bridged lane confirms any nonce after the latest confirmed and up to the latest
/// received one: that nonce becomes the latest confirmed one, and who has delivered the messages
/// after it stays as it is, while the others are forgotten. Any other state changes nothing.
pub proof fn state_update_forgets_confirmed_deliveries<RelayerId, Fee>(
    contents: StoreContents<RelayerId, Fee>,
    lane_id: LaneId,
    outbound: OutboundLaneData,
)
    requires
        entries_follow_on(contents.inbound_lane(lane_id)),
    ensures
        ({
            let lane = contents.inbound_lane(lane_id);
            let nonce = outbound.latest_received_nonce;
            let after = contents.after_state_update(lane_id, outbound);
            let after_lane = after.inbound_lane(lane_id);
            if lane.latest_confirmed_nonce < nonce <= lane.latest_received_nonce {
                &&& lane.can_confirm(nonce)
                &&& after_lane == lane.confirmed(nonce)
                &&& after_lane.latest_confirmed_nonce == nonce
                &&& after_lane.latest_received_nonce == lane.latest_received_nonce
                &&& after_lane.relayers.len() <= lane.relayers.len()
                &&& entries_follow_on(after_lane)
                &&& forall|n: MessageNonce, r: RelayerId| #[trigger]
                    delivered_by(after_lane, n, r) <==> delivered_by(lane, n, r) && n > nonce
                &&& after.outbound_lanes == contents.outbound_lanes
                &&& after.outbound_messages == contents.outbound_messages
                &&& forall|id: LaneId|
                    id != lane_id ==> #[trigger] after.inbound_lane(id) == contents.inbound_lane(id)
            } else {
                &&& !lane.can_confirm(nonce)
                &&& after == contents
            }
        }),
{
    let lane = contents.inbound_lane(lane_id);
    let nonce = outbound.latest_received_nonce;
    if lane.latest_confirmed_nonce < nonce <= lane.latest_received_nonce {
        lemma_unconfirmed_entries_follow_on(lane, nonce);
        let after_lane = contents.after_state_update(lane_id, outbound).inbound_lane(lane_id);
        let rest = InboundLaneState {
            relayers: unconfirmed_entries(lane.relayers, nonce),
            ..lane
        };
        assert(after_lane.relayers == rest.relayers);
        assert forall|n: MessageNonce, r: RelayerId| #[trigger]
            delivered_by(after_lane, n, r) <==> delivered_by(lane, n, r) && n > nonce by {
            assert(delivered_by(rest, n, r) <==> delivered_by(lane, n, r) && n > nonce);
            assert(delivered_by(after_lane, n, r) <==> delivered_by(rest, n, r));
        }
    }
}

/// A lane is well formed exactly if its entries follow on from the latest confirmed message to the
/// latest received one, and no two neighbours are of one relayer.
pub proof fn well_formed_lanes_follow_on<RelayerId>(lane: InboundLaneState<RelayerId>)
    ensures
        lane.well_formed() <==> {
            &&& entries_follow_on(lane)
            &&& lane.relayers.len() > 0 ==> lane.relayers[0].0 == lane.latest_confirmed_nonce + 1
            &&& lane.relayers.len() == 0 ==> lane.latest_confirmed_nonce
                == lane.latest_received_nonce
            &&& forall|i: int, j: int|
                0 <= i < lane.relayers.len() && j == i + 1 && j < lane.relayers.len() ==> (
                #[trigger] lane.relayers[i]).2 != (#[trigger] lane.relayers[j]).2
        },
{
    let entries = lane.relayers.len();
    if lane.well_formed() {
        assert forall|i: int, j: int|
            0 <= i < entries && j == i + 1 && j < entries implies (#[trigger] lane.relayers[i]).1 + 1
            == (#[trigger] lane.relayers[j]).0 && lane.relayers[i].2 != lane.relayers[j].2 by {
            assert(adjoining(lane.relayers, i));
        }
    } else if entries_follow_on(lane) && (entries > 0 ==> lane.relayers[0].0
        == lane.latest_confirmed_nonce + 1) && (entries == 0 ==> lane.latest_confirmed_nonce
        == lane.latest_received_nonce) && (forall|i: int, j: int|
        0 <= i < entries && j == i + 1 && j < entries ==> (#[trigger] lane.relayers[i]).2 != (
        #[trigger] lane.relayers[j]).2) {
        if entries > 0 {
            assert(lane.relayers[0].0 <= lane.relayers[0].1);
            assert(lane.relayers[entries - 1].0 <= lane.relayers[entries - 1].1);
            if entries > 1 {
                lemma_entries_ascend(lane, 0, entries - 1);
            }
        }
        assert forall|i: int| 0 <= i < entries - 1 implies #[trigger] adjoining(
            lane.relayers,
            i,
        ) by {
            assert(lane.relayers[i].1 + 1 == lane.relayers[i + 1].0);
            assert(lane.relayers[i].2 != lane.relayers[i + 1].2);
        }
        assert(lane.well_formed());
    }
}

/// Every message that has been received and not been confirmed has been delivered by one relayer,
/// and no other message has been delivered by any.
pub proof fn each_unconfirmed_message_has_one_relayer<RelayerId>(
    lane: InboundLaneState<RelayerId>,
    nonce: MessageNonce,
)
    requires
        lane.well_formed(),
    ensures
        (exists|r: RelayerId| delivered_by(lane, nonce, r)) <==> lane.latest_confirmed_nonce < nonce
            <= lane.latest_received_nonce,
        forall|r: RelayerId, s: RelayerId| #[trigger]
            delivered_by(lane, nonce, r) && #[trigger] delivered_by(lane, nonce, s) ==> r == s,
{
    well_formed_lanes_follow_on(lane);
    let entries = lane.relayers.len();
    assert forall|r: RelayerId| #[trigger] delivered_by(lane, nonce, r) implies
        lane.latest_confirmed_nonce < nonce <= lane.latest_received_nonce by {
        let i = choose|i: int|
            {
                &&& 0 <= i < lane.relayers.len()
                &&& (#[trigger] lane.relayers[i]).0 <= nonce <= lane.relayers[i].1
                &&& lane.relayers[i].2 == r
            };
        if i > 0 {
            lemma_entries_ascend(lane, 0, i);
            assert(lane.relayers[0].0 <= lane.relayers[0].1);
        }
        if i < entries - 1 {
            lemma_entries_ascend(lane, i, entries - 1);
            assert(lane.relayers[entries - 1].0 <= lane.relayers[entries - 1].1);
        }
    }
    assert forall|r: RelayerId, s: RelayerId| #[trigger]
        delivered_by(lane, nonce, r) && #[trigger] delivered_by(lane, nonce, s) implies r == s by {
        let i = choose|i: int|
            {
                &&& 0 <= i < lane.relayers.len()
                &&& (#[trigger] lane.relayers[i]).0 <= nonce <= lane.relayers[i].1
                &&& lane.relayers[i].2 == r
            };
        let j = choose|j: int|
            {
                &&& 0 <= j < lane.relayers.len()
                &&& (#[trigger] lane.relayers[j]).0 <= nonce <= lane.relayers[j].1
                &&& lane.relayers[j].2 == s
            };
        if i < j {
            lemma_entries_ascend(lane, i, j);
        }
        if j < i {
            lemma_entries_ascend(lane, j, i);
        }
    }
    if lane.latest_confirmed_nonce < nonce <= lane.latest_received_nonce {
        let i = lemma_entry_of(lane, nonce, entries as int);
        assert(delivered_by(lane, nonce, lane.relayers[i].2));
    }
}

/// One of the first `n` entries holds the nonce, if the last of them does not end before it.
proof fn lemma_entry_of<RelayerId>(
    lane: InboundLaneState<RelayerId>,
    nonce: MessageNonce,
    n: int,
) -> (i: int)
    requires
        entries_follow_on(lane),
        0 < n <= lane.relayers.len(),
        lane.relayers[0].0 <= nonce <= lane.relayers[n - 1].1,
    ensures
        0 <= i < n,
        lane.relayers[i].0 <= nonce <= lane.relayers[i].1,
    decreases n,
{
    if nonce >= lane.relayers[n - 1].0 {
        n - 1
    } else {
        assert(lane.relayers[n - 2].1 + 1 == lane.relayers[n - 1].0);
        lemma_entry_of(lane, nonce, n - 1)
    }
}

} // verus!
