//! What a proof of messages does to the lanes.
use crate::codec::DispatchMessage;
use crate::inbound_lane::nonces_of;
use crate::laws::delivered_by;
use crate::primitives::{
    InboundLaneState, LaneId, MessageKey, MessageNonce, OutboundLaneData, ProvedLaneMessages,
};
use crate::promises::batches::{acceptances_add_up, deliveries_add_up, lanes_add_up};
use crate::promises::lanes::{
    accepted_messages_are_received, entries_follow_on, message_is_booked_for_its_relayer,
    state_update_forgets_confirmed_deliveries,
};
use crate::store::StoreContents;
use vstd::prelude::*;

verus! {

/// One of the messages has the key.
pub open spec fn has_key<Payload, Fee>(
    messages: Seq<DispatchMessage<Payload, Fee>>,
    key: MessageKey,
) -> bool {
    exists|k: int| 0 <= k < messages.len() && (#[trigger] messages[k]).key == key
}

/// One of the messages has come in with the nonce and the data of the message.
pub open spec fn came_in<Payload, Fee>(
    messages: Seq<DispatchMessage<Payload, Fee>>,
    message: DispatchMessage<Payload, Fee>,
) -> bool {
    exists|i: int|
        {
            &&& 0 <= i < messages.len()
            &&& (#[trigger] messages[i]).key.nonce == message.key.nonce
            &&& messages[i].data == message.data
        }
}

/// The messages come lane by lane and nonce by nonce, in ascending order, none of them twice.
pub open spec fn keys_ascend<Payload, Fee>(messages: Seq<DispatchMessage<Payload, Fee>>) -> bool {
    forall|j: int, k: int|
        0 <= j < k < messages.len() ==> {
            ||| (#[trigger] messages[j]).key.lane_id < (#[trigger] messages[k]).key.lane_id
            ||| messages[j].key.lane_id == messages[k].key.lane_id && messages[j].key.nonce
                < messages[k].key.nonce
        }
}

/// How a lane takes in its state at the bridged chain and then messages of the relayer. A state that
/// confirms messages which have been received and not been confirmed yet makes the lane forget who
/// has delivered them; messages that are received are booked for the relayer.
pub open spec fn takes_in<RelayerId>(
    before: InboundLaneState<RelayerId>,
    lane_state: Option<OutboundLaneData>,
    relayer: RelayerId,
    after: InboundLaneState<RelayerId>,
) -> bool {
    let is_news = lane_state matches Some(state) && before.latest_confirmed_nonce
        < state.latest_received_nonce <= before.latest_received_nonce;
    &&& entries_follow_on(after)
    &&& is_news ==> after.latest_confirmed_nonce == lane_state->0.latest_received_nonce
    &&& !is_news ==> after.latest_confirmed_nonce == before.latest_confirmed_nonce
    &&& before.latest_received_nonce <= after.latest_received_nonce
    &&& forall|n: MessageNonce, r: RelayerId| #[trigger]
        delivered_by(after, n, r) <==> {
            ||| delivered_by(before, n, r) && (is_news ==> n > after.latest_confirmed_nonce)
            ||| before.latest_received_nonce < n <= after.latest_received_nonce && r == relayer
        }
}

/// Messages that come in over a lane, one after the other: those are received and dispatched that
/// are next when it is their turn and find room, each once and in the order of the nonces; they are
/// booked for the relayer.
pub proof fn deliveries_are_received_in_order<RelayerId, Fee, Payload, InboundFee>(
    contents: StoreContents<RelayerId, Fee>,
    lane_id: LaneId,
    max_unconfirmed_messages: MessageNonce,
    relayer: RelayerId,
    messages: Seq<DispatchMessage<Payload, InboundFee>>,
)
    requires
        entries_follow_on(contents.inbound_lane(lane_id)),
    ensures
        ({
            let before = contents.inbound_lane(lane_id);
            let reached = contents.after_deliveries(
                lane_id,
                max_unconfirmed_messages,
                relayer,
                nonces_of(messages),
            );
            let after = reached.inbound_lane(lane_id);
            let accepted = contents.accepted(lane_id, max_unconfirmed_messages, relayer, messages);
            &&& takes_in(before, None, relayer, after)
            &&& after.latest_received_nonce == before.latest_received_nonce + accepted.len()
            &&& forall|k: int|
                0 <= k < accepted.len() ==> {
                    &&& (#[trigger] accepted[k]).key.lane_id == lane_id
                    &&& accepted[k].key.nonce == before.latest_received_nonce + 1 + k
                    &&& came_in(messages, accepted[k])
                }
            &&& before.relayers.len() <= max_unconfirmed_messages ==> after.relayers.len()
                <= max_unconfirmed_messages
            &&& reached.outbound_lanes == contents.outbound_lanes
            &&& reached.outbound_messages == contents.outbound_messages
            &&& forall|id: LaneId|
                id != lane_id ==> #[trigger] reached.inbound_lane(id) == contents.inbound_lane(id)
        }),
    decreases messages.len(),
{
    let before = contents.inbound_lane(lane_id);
    let accepted = contents.accepted(lane_id, max_unconfirmed_messages, relayer, messages);
    let none = Seq::<DispatchMessage<Payload, InboundFee>>::empty();
    if messages.len() == 0 {
        assert(messages =~= none);
        assert(nonces_of(messages) =~= Seq::<MessageNonce>::empty());
    } else {
        let earlier = messages.drop_last();
        let message = messages.last();
        deliveries_are_received_in_order(
            contents,
            lane_id,
            max_unconfirmed_messages,
            relayer,
            earlier,
        );
        assert(messages =~= earlier + seq![message]);
        assert(nonces_of(messages) =~= nonces_of(earlier) + seq![message.key.nonce]);
        deliveries_add_up(
            contents,
            lane_id,
            max_unconfirmed_messages,
            relayer,
            nonces_of(earlier),
            seq![message.key.nonce],
            message.key.nonce,
        );
        let middle = contents.after_deliveries(
            lane_id,
            max_unconfirmed_messages,
            relayer,
            nonces_of(earlier),
        );
        deliveries_add_up(
            middle,
            lane_id,
            max_unconfirmed_messages,
            relayer,
            nonces_of(none),
            nonces_of(none),
            message.key.nonce,
        );
        acceptances_add_up(
            contents,
            lane_id,
            max_unconfirmed_messages,
            relayer,
            earlier,
            seq![message],
            message,
        );
        acceptances_add_up(
            middle,
            lane_id,
            max_unconfirmed_messages,
            relayer,
            none,
            none,
            message,
        );
        accepted_messages_are_received(
            middle,
            lane_id,
            max_unconfirmed_messages,
            relayer,
            message.key.nonce,
        );
        let lane = middle.inbound_lane(lane_id);
        let already = contents.accepted(lane_id, max_unconfirmed_messages, relayer, earlier);
        let reached = contents.after_deliveries(
            lane_id,
            max_unconfirmed_messages,
            relayer,
            nonces_of(messages),
        );
        let after = reached.inbound_lane(lane_id);
        if message.key.nonce == lane.latest_received_nonce + 1 {
            message_is_booked_for_its_relayer(lane, relayer, message.key.nonce);
        }
        assert forall|k: int| 0 <= k < accepted.len() implies {
            &&& (#[trigger] accepted[k]).key.lane_id == lane_id
            &&& accepted[k].key.nonce == before.latest_received_nonce + 1 + k
            &&& came_in(messages, accepted[k])
        } by {
            if k < already.len() {
                assert(accepted[k] == already[k]);
                let i = choose|i: int|
                    {
                        &&& 0 <= i < earlier.len()
                        &&& (#[trigger] earlier[i]).key.nonce == already[k].key.nonce
                        &&& earlier[i].data == already[k].data
                    };
                assert(messages[i] == earlier[i]);
            } else {
                assert(messages[messages.len() - 1] == message);
            }
        }
        assert forall|n: MessageNonce, r: RelayerId| #[trigger]
            delivered_by(after, n, r) <==> {
                ||| delivered_by(before, n, r)
                ||| before.latest_received_nonce < n <= after.latest_received_nonce && r == relayer
            } by {
            assert(delivered_by(lane, n, r) <==> {
                ||| delivered_by(before, n, r)
                ||| before.latest_received_nonce < n <= lane.latest_received_nonce && r == relayer
            });
        }
        assert forall|id: LaneId| id != lane_id implies #[trigger] reached.inbound_lane(id)
            == contents.inbound_lane(id) by {
            assert(middle.inbound_lane(id) == contents.inbound_lane(id));
        }
    }
}

/// What a proof holds of a single lane is taken in: first its state, where there is one, then its
/// messages.
pub proof fn lane_takes_in_state_and_messages<RelayerId, Fee, Payload, InboundFee>(
    contents: StoreContents<RelayerId, Fee>,
    max_unconfirmed_messages: MessageNonce,
    relayer: RelayerId,
    lane: (LaneId, ProvedLaneMessages<DispatchMessage<Payload, InboundFee>>),
)
    requires
        entries_follow_on(contents.inbound_lane(lane.0)),
    ensures
        ({
            let before = contents.inbound_lane(lane.0);
            let reached = contents.after_lanes(max_unconfirmed_messages, relayer, seq![lane]);
            let after = reached.inbound_lane(lane.0);
            let accepted = contents.accepted_of_lanes(
                max_unconfirmed_messages,
                relayer,
                seq![lane],
            );
            &&& takes_in(before, lane.1.lane_state, relayer, after)
            &&& after.latest_received_nonce == before.latest_received_nonce + accepted.len()
            &&& forall|k: int|
                0 <= k < accepted.len() ==> {
                    &&& (#[trigger] accepted[k]).key.lane_id == lane.0
                    &&& accepted[k].key.nonce == before.latest_received_nonce + 1 + k
                    &&& came_in(lane.1.messages@, accepted[k])
                }
            &&& before.relayers.len() <= max_unconfirmed_messages ==> after.relayers.len()
                <= max_unconfirmed_messages
            &&& reached.outbound_lanes == contents.outbound_lanes
            &&& reached.outbound_messages == contents.outbound_messages
            &&& forall|id: LaneId|
                id != lane.0 ==> #[trigger] reached.inbound_lane(id) == contents.inbound_lane(id)
        }),
{
    let none = Seq::<(LaneId, ProvedLaneMessages<DispatchMessage<Payload, InboundFee>>)>::empty();
    lanes_add_up(contents, max_unconfirmed_messages, relayer, none, none, lane);
    let before = contents.inbound_lane(lane.0);
    let updated = match lane.1.lane_state {
        Some(lane_state) => contents.after_state_update(lane.0, lane_state),
        None => contents,
    };
    if let Some(lane_state) = lane.1.lane_state {
        state_update_forgets_confirmed_deliveries(contents, lane.0, lane_state);
    }
    deliveries_are_received_in_order(
        updated,
        lane.0,
        max_unconfirmed_messages,
        relayer,
        lane.1.messages@,
    );
    let middle = updated.inbound_lane(lane.0);
    let reached = contents.after_lanes(max_unconfirmed_messages, relayer, seq![lane]);
    let after = reached.inbound_lane(lane.0);
    let is_news = lane.1.lane_state matches Some(state) && before.latest_confirmed_nonce
        < state.latest_received_nonce <= before.latest_received_nonce;
    assert forall|n: MessageNonce, r: RelayerId| #[trigger]
        delivered_by(after, n, r) <==> {
            ||| delivered_by(before, n, r) && (is_news ==> n > after.latest_confirmed_nonce)
            ||| before.latest_received_nonce < n <= after.latest_received_nonce && r == relayer
        } by {
        assert(delivered_by(middle, n, r) <==> delivered_by(before, n, r) && (is_news ==> n
            > after.latest_confirmed_nonce));
    }
    assert forall|id: LaneId| id != lane.0 implies #[trigger] reached.inbound_lane(id)
        == contents.inbound_lane(id) by {
        assert(updated.inbound_lane(id) == contents.inbound_lane(id));
    }
}

/// Lanes that are taken in one after the other, in ascending order, do not touch one another: each
/// takes in its own state and its own messages, and the other lanes stay as they are. What is
/// dispatched are the messages that the lanes receive, each once, lane by lane and nonce by nonce,
/// with the data that has come in.
pub proof fn lanes_take_in_what_is_theirs<RelayerId, Fee, Payload, InboundFee>(
    contents: StoreContents<RelayerId, Fee>,
    max_unconfirmed_messages: MessageNonce,
    relayer: RelayerId,
    lanes: Seq<(LaneId, ProvedLaneMessages<DispatchMessage<Payload, InboundFee>>)>,
)
    requires
        forall|id: LaneId| entries_follow_on(#[trigger] contents.inbound_lane(id)),
        forall|i: int, j: int|
            0 <= i < j < lanes.len() ==> (#[trigger] lanes[i]).0 < (#[trigger] lanes[j]).0,
    ensures
        ({
            let reached = contents.after_lanes(max_unconfirmed_messages, relayer, lanes);
            let accepted = contents.accepted_of_lanes(max_unconfirmed_messages, relayer, lanes);
            &&& reached.outbound_lanes == contents.outbound_lanes
            &&& reached.outbound_messages == contents.outbound_messages
            &&& forall|id: LaneId| entries_follow_on(#[trigger] reached.inbound_lane(id))
            &&& forall|id: LaneId|
                (forall|i: int| 0 <= i < lanes.len() ==> (#[trigger] lanes[i]).0 != id)
                    ==> #[trigger] reached.inbound_lane(id) == contents.inbound_lane(id)
            &&& forall|i: int|
                0 <= i < lanes.len() ==> takes_in(
                    contents.inbound_lane((#[trigger] lanes[i]).0),
                    lanes[i].1.lane_state,
                    relayer,
                    reached.inbound_lane(lanes[i].0),
                )
            &&& forall|id: LaneId|
                contents.inbound_lane(id).relayers.len() <= max_unconfirmed_messages ==> (
                #[trigger] reached.inbound_lane(id)).relayers.len() <= max_unconfirmed_messages
            &&& keys_ascend(accepted)
            &&& forall|k: int|
                0 <= k < accepted.len() ==> {
                    let key = (#[trigger] accepted[k]).key;
                    &&& contents.inbound_lane(key.lane_id).latest_received_nonce < key.nonce
                    &&& key.nonce <= reached.inbound_lane(key.lane_id).latest_received_nonce
                    &&& exists|i: int|
                        0 <= i < lanes.len() && (#[trigger] lanes[i]).0 == key.lane_id && came_in(
                            lanes[i].1.messages@,
                            accepted[k],
                        )
                }
            &&& forall|key: MessageKey|
                contents.inbound_lane(key.lane_id).latest_received_nonce < key.nonce
                    <= reached.inbound_lane(key.lane_id).latest_received_nonce ==> #[trigger] has_key(
                    accepted,
                    key,
                )
        }),
    decreases lanes.len(),
{
    let none = Seq::<(LaneId, ProvedLaneMessages<DispatchMessage<Payload, InboundFee>>)>::empty();
    if lanes.len() == 0 {
        assert(lanes =~= none);
    } else {
        let earlier = lanes.drop_last();
        let last = lanes.len() - 1;
        let lane = lanes[last];
        assert forall|i: int, j: int| 0 <= i < j < earlier.len() implies (
        #[trigger] earlier[i]).0 < (#[trigger] earlier[j]).0 by {
            assert(lanes[i].0 < lanes[j].0);
        }
        lanes_take_in_what_is_theirs(contents, max_unconfirmed_messages, relayer, earlier);
        let middle = contents.after_lanes(max_unconfirmed_messages, relayer, earlier);
        let already = contents.accepted_of_lanes(max_unconfirmed_messages, relayer, earlier);
        assert(lanes =~= earlier + seq![lane]);
        lanes_add_up(contents, max_unconfirmed_messages, relayer, earlier, seq![lane], lane);
        assert forall|i: int| 0 <= i < earlier.len() implies (#[trigger] earlier[i]).0
            < lane.0 by {
            assert(lanes[i].0 < lanes[last].0);
        }
        assert(middle.inbound_lane(lane.0) == contents.inbound_lane(lane.0));
        lane_takes_in_state_and_messages(middle, max_unconfirmed_messages, relayer, lane);
        let reached = contents.after_lanes(max_unconfirmed_messages, relayer, lanes);
        let accepted = contents.accepted_of_lanes(max_unconfirmed_messages, relayer, lanes);
        let now = middle.accepted_of_lanes(max_unconfirmed_messages, relayer, seq![lane]);
        assert(accepted == already + now);
        assert(reached == middle.after_lanes(max_unconfirmed_messages, relayer, seq![lane]));
        assert forall|id: LaneId| entries_follow_on(#[trigger] reached.inbound_lane(id)) by {
            if id != lane.0 {
                assert(reached.inbound_lane(id) == middle.inbound_lane(id));
            }
        }
        assert forall|id: LaneId|
            (forall|i: int| 0 <= i < lanes.len() ==> (#[trigger] lanes[i]).0 != id) implies
            #[trigger] reached.inbound_lane(id) == contents.inbound_lane(id) by {
            assert(lanes[last].0 != id);
            assert forall|i: int| 0 <= i < earlier.len() implies (#[trigger] earlier[i]).0 != id by {
                assert(lanes[i].0 != id);
            }
            assert(middle.inbound_lane(id) == contents.inbound_lane(id));
        }
        assert forall|i: int| 0 <= i < lanes.len() implies takes_in(
            contents.inbound_lane((#[trigger] lanes[i]).0),
            lanes[i].1.lane_state,
            relayer,
            reached.inbound_lane(lanes[i].0),
        ) by {
            if i < last {
                assert(earlier[i] == lanes[i]);
                assert(reached.inbound_lane(lanes[i].0) == middle.inbound_lane(lanes[i].0));
            }
        }
        assert forall|id: LaneId|
            contents.inbound_lane(id).relayers.len() <= max_unconfirmed_messages implies (
        #[trigger] reached.inbound_lane(id)).relayers.len() <= max_unconfirmed_messages by {
            assert(middle.inbound_lane(id).relayers.len() <= max_unconfirmed_messages);
            if id != lane.0 {
                assert(reached.inbound_lane(id) == middle.inbound_lane(id));
            }
        }
        assert forall|k: int| 0 <= k < already.len() implies (#[trigger] already[k]).key.lane_id
            < lane.0 by {
            let i = choose|i: int|
                0 <= i < earlier.len() && (#[trigger] earlier[i]).0 == already[k].key.lane_id
                    && came_in(earlier[i].1.messages@, already[k]);
            assert(earlier[i].0 < lane.0);
        }
        assert forall|j: int, k: int| 0 <= j < k < accepted.len() implies {
            ||| (#[trigger] accepted[j]).key.lane_id < (#[trigger] accepted[k]).key.lane_id
            ||| accepted[j].key.lane_id == accepted[k].key.lane_id && accepted[j].key.nonce
                < accepted[k].key.nonce
        } by {
            if k < already.len() {
                assert(accepted[j] == already[j] && accepted[k] == already[k]);
            } else {
                assert(accepted[k] == now[k - already.len()]);
                if j < already.len() {
                    assert(accepted[j] == already[j]);
                } else {
                    assert(accepted[j] == now[j - already.len()]);
                }
            }
        }
        assert forall|k: int| 0 <= k < accepted.len() implies {
            let key = (#[trigger] accepted[k]).key;
            &&& contents.inbound_lane(key.lane_id).latest_received_nonce < key.nonce
            &&& key.nonce <= reached.inbound_lane(key.lane_id).latest_received_nonce
            &&& exists|i: int|
                0 <= i < lanes.len() && (#[trigger] lanes[i]).0 == key.lane_id && came_in(
                    lanes[i].1.messages@,
                    accepted[k],
                )
        } by {
            let key = accepted[k].key;
            if k < already.len() {
                assert(accepted[k] == already[k]);
                let i = choose|i: int|
                    0 <= i < earlier.len() && (#[trigger] earlier[i]).0 == key.lane_id && came_in(
                        earlier[i].1.messages@,
                        already[k],
                    );
                assert(lanes[i] == earlier[i]);
                assert(reached.inbound_lane(key.lane_id) == middle.inbound_lane(key.lane_id));
            } else {
                assert(accepted[k] == now[k - already.len()]);
                assert(lanes[last].0 == key.lane_id);
            }
        }
        assert forall|key: MessageKey|
            contents.inbound_lane(key.lane_id).latest_received_nonce < key.nonce
                <= reached.inbound_lane(key.lane_id).latest_received_nonce implies
            #[trigger] has_key(accepted, key) by {
            if key.lane_id == lane.0 {
                let k = already.len() + (key.nonce - contents.inbound_lane(
                    lane.0,
                ).latest_received_nonce - 1);
                assert(accepted[k] == now[k - already.len()]);
                assert(accepted[k].key == key);
            } else {
                assert(reached.inbound_lane(key.lane_id) == middle.inbound_lane(key.lane_id));
                assert(has_key(already, key));
                let k = choose|k: int| 0 <= k < already.len() && (#[trigger] already[k]).key == key;
                assert(accepted[k] == already[k]);
            }
        }
    }
}

/// Messages that come next all arrive if the relayer finds room for an entry: none is left out,
/// however many there are.
pub proof fn next_messages_all_arrive<RelayerId, Fee, Payload, InboundFee>(
    contents: StoreContents<RelayerId, Fee>,
    lane_id: LaneId,
    max_unconfirmed_messages: MessageNonce,
    relayer: RelayerId,
    messages: Seq<DispatchMessage<Payload, InboundFee>>,
)
    requires
        entries_follow_on(contents.inbound_lane(lane_id)),
        contents.inbound_lane(lane_id).relayers.len() < max_unconfirmed_messages,
        forall|i: int|
            0 <= i < messages.len() ==> (#[trigger] messages[i]).key.nonce == contents.inbound_lane(
                lane_id,
            ).latest_received_nonce + 1 + i,
    ensures
        ({
            let before = contents.inbound_lane(lane_id);
            let after = contents.after_deliveries(
                lane_id,
                max_unconfirmed_messages,
                relayer,
                nonces_of(messages),
            ).inbound_lane(lane_id);
            let accepted = contents.accepted(lane_id, max_unconfirmed_messages, relayer, messages);
            &&& after.latest_received_nonce == before.latest_received_nonce + messages.len()
            &&& accepted.len() == messages.len()
            &&& forall|i: int|
                0 <= i < messages.len() ==> (#[trigger] accepted[i]).key.nonce
                    == messages[i].key.nonce && accepted[i].data == messages[i].data
            &&& messages.len() > 0 ==> after.relayers.len() > 0 && after.relayers[
            after.relayers.len() - 1].2 == relayer
            &&& after.relayers.len() <= before.relayers.len() + 1
            &&& messages.len() == 0 ==> after == before
        }),
    decreases messages.len(),
{
    let before = contents.inbound_lane(lane_id);
    deliveries_are_received_in_order(
        contents,
        lane_id,
        max_unconfirmed_messages,
        relayer,
        messages,
    );
    let none = Seq::<DispatchMessage<Payload, InboundFee>>::empty();
    if messages.len() == 0 {
        assert(messages =~= none);
        assert(nonces_of(messages) =~= Seq::<MessageNonce>::empty());
    } else {
        let earlier = messages.drop_last();
        let message = messages.last();
        assert forall|i: int| 0 <= i < earlier.len() implies (#[trigger] earlier[i]).key.nonce
            == before.latest_received_nonce + 1 + i by {
            assert(messages[i] == earlier[i]);
        }
        next_messages_all_arrive(contents, lane_id, max_unconfirmed_messages, relayer, earlier);
        deliveries_are_received_in_order(
            contents,
            lane_id,
            max_unconfirmed_messages,
            relayer,
            earlier,
        );
        assert(messages =~= earlier + seq![message]);
        assert(nonces_of(messages) =~= nonces_of(earlier) + seq![message.key.nonce]);
        deliveries_add_up(
            contents,
            lane_id,
            max_unconfirmed_messages,
            relayer,
            nonces_of(earlier),
            seq![message.key.nonce],
            message.key.nonce,
        );
        let middle = contents.after_deliveries(
            lane_id,
            max_unconfirmed_messages,
            relayer,
            nonces_of(earlier),
        );
        deliveries_add_up(
            middle,
            lane_id,
            max_unconfirmed_messages,
            relayer,
            nonces_of(none),
            nonces_of(none),
            message.key.nonce,
        );
        acceptances_add_up(
            contents,
            lane_id,
            max_unconfirmed_messages,
            relayer,
            earlier,
            seq![message],
            message,
        );
        acceptances_add_up(
            middle,
            lane_id,
            max_unconfirmed_messages,
            relayer,
            none,
            none,
            message,
        );
        assert(messages[messages.len() - 1] == message);
        accepted_messages_are_received(
            middle,
            lane_id,
            max_unconfirmed_messages,
            relayer,
            message.key.nonce,
        );
        let lane = middle.inbound_lane(lane_id);
        message_is_booked_for_its_relayer(lane, relayer, message.key.nonce);
        let already = contents.accepted(lane_id, max_unconfirmed_messages, relayer, earlier);
        let accepted = contents.accepted(lane_id, max_unconfirmed_messages, relayer, messages);
        assert forall|i: int| 0 <= i < messages.len() implies (#[trigger] accepted[i]).key.nonce
            == messages[i].key.nonce && accepted[i].data == messages[i].data by {
            if i < already.len() {
                assert(accepted[i] == already[i]);
                assert(earlier[i] == messages[i]);
            }
        }
        let after = contents.after_deliveries(
            lane_id,
            max_unconfirmed_messages,
            relayer,
            nonces_of(messages),
        ).inbound_lane(lane_id);
        let last = after.relayers.len() - 1;
        assert(after == lane.with_delivery(relayer, message.key.nonce));
        assert(after.relayers[last].2 == relayer);
    }
}

} // verus!
