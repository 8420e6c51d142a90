//! What holds of many messages and many lanes at once, and of their decoding.
use crate::codec::{Decode, DecodeError, DispatchMessage, Encode};
use crate::config::SourceHeaderChain;
use crate::inbound_lane::nonces_of;
use crate::primitives::{
    Error, LaneId, Message, MessageNonce, ProvedLaneMessages, ProvedMessages, Weight,
};
use crate::promises::lanes::next_message_is_accepted_if_there_is_room;
use crate::proved_messages::{
    all_decoded_from, ascending, in_order, lane_decoded_from, ordered_lanes, proof_decoded,
};
use crate::receival::{messages_of_lanes, total_weight};
use crate::store::StoreContents;
use vstd::prelude::*;

verus! {

/// The weight of many dispatches is the sum of their weights: what is weighed in two parts weighs
/// as much as both parts, a single dispatch weighs what it weighs, and no dispatch weighs nothing.
pub proof fn weights_add_up(first: Seq<Weight>, second: Seq<Weight>, weight: Weight)
    ensures
        total_weight(first + second) == total_weight(first) + total_weight(second),
        total_weight(seq![weight]) == weight,
        total_weight(Seq::<Weight>::empty()) == 0,
    decreases second.len(),
{
    assert(seq![weight].drop_last() =~= Seq::<Weight>::empty());
    assert(total_weight(seq![weight].drop_last()) == 0);
    if second.len() == 0 {
        assert(first + second =~= first);
    } else {
        weights_add_up(first, second.drop_last(), weight);
        assert((first + second).drop_last() =~= first + second.drop_last());
        assert((first + second).last() == second.last());
    }
}

/// The weight of many dispatches is what is reached by adding weight after weight, from the first
/// one to the last.
pub proof fn weight_is_the_sum_of_all(weights: Seq<Weight>)
    ensures
        total_weight(weights) == weights.fold_left(0int, |sum: int, weight: Weight| sum + weight),
    decreases weights.len(),
{
    if weights.len() > 0 {
        weight_is_the_sum_of_all(weights.drop_last());
        weights_add_up(weights.drop_last(), seq![weights.last()], weights.last());
        assert(weights =~= weights.drop_last() + seq![weights.last()]);
    }
}

/// The messages of lanes are the messages of the first lanes, then those of the others; the
/// messages of a single lane are its messages.
pub proof fn messages_of_lanes_add_up<Message>(
    first: Seq<(LaneId, ProvedLaneMessages<Message>)>,
    second: Seq<(LaneId, ProvedLaneMessages<Message>)>,
    lane: (LaneId, ProvedLaneMessages<Message>),
)
    ensures
        messages_of_lanes(first + second) == messages_of_lanes(first) + messages_of_lanes(second),
        messages_of_lanes(seq![lane]) == lane.1.messages@,
        messages_of_lanes(Seq::<(LaneId, ProvedLaneMessages<Message>)>::empty()).len() == 0,
    decreases second.len(),
{
    assert(seq![lane].drop_last() =~= Seq::<(LaneId, ProvedLaneMessages<Message>)>::empty());
    assert(messages_of_lanes(seq![lane].drop_last()).len() == 0);
    assert(messages_of_lanes(seq![lane]) =~= lane.1.messages@);
    if second.len() == 0 {
        assert(first + second =~= first);
        assert(messages_of_lanes(first) + messages_of_lanes(second) =~= messages_of_lanes(first));
    } else {
        messages_of_lanes_add_up(first, second.drop_last(), lane);
        assert((first + second).drop_last() =~= first + second.drop_last());
        assert((first + second).last() == second.last());
        assert(messages_of_lanes(first + second) =~= messages_of_lanes(first)
            + messages_of_lanes(second));
    }
}

/// Messages that come in one after the other are received one after the other.
pub proof fn deliveries_add_up<RelayerId, Fee>(
    contents: StoreContents<RelayerId, Fee>,
    lane_id: LaneId,
    max_unconfirmed_messages: MessageNonce,
    relayer: RelayerId,
    first: Seq<MessageNonce>,
    second: Seq<MessageNonce>,
    nonce: MessageNonce,
)
    ensures
        contents.after_deliveries(lane_id, max_unconfirmed_messages, relayer, first + second)
            == contents.after_deliveries(
            lane_id,
            max_unconfirmed_messages,
            relayer,
            first,
        ).after_deliveries(lane_id, max_unconfirmed_messages, relayer, second),
        contents.after_deliveries(lane_id, max_unconfirmed_messages, relayer, seq![nonce])
            == contents.after_message(lane_id, max_unconfirmed_messages, relayer, nonce),
        contents.after_deliveries(
            lane_id,
            max_unconfirmed_messages,
            relayer,
            Seq::<MessageNonce>::empty(),
        ) == contents,
    decreases second.len(),
{
    assert(seq![nonce].drop_last() =~= Seq::<MessageNonce>::empty());
    assert(contents.after_deliveries(
        lane_id,
        max_unconfirmed_messages,
        relayer,
        seq![nonce].drop_last(),
    ) == contents);
    if second.len() == 0 {
        assert(first + second =~= first);
    } else {
        deliveries_add_up(
            contents,
            lane_id,
            max_unconfirmed_messages,
            relayer,
            first,
            second.drop_last(),
            nonce,
        );
        assert((first + second).drop_last() =~= first + second.drop_last());
        assert((first + second).last() == second.last());
    }
}

/// Of messages that come in one after the other those are dispatched that are accepted when it is
/// their turn: of a single message that is next and finds room, that message, as a message of its
/// lane with its data as it came in; of any other single message none.
pub proof fn acceptances_add_up<RelayerId, Fee, Payload, InboundFee>(
    contents: StoreContents<RelayerId, Fee>,
    lane_id: LaneId,
    max_unconfirmed_messages: MessageNonce,
    relayer: RelayerId,
    first: Seq<DispatchMessage<Payload, InboundFee>>,
    second: Seq<DispatchMessage<Payload, InboundFee>>,
    message: DispatchMessage<Payload, InboundFee>,
)
    ensures
        contents.accepted(lane_id, max_unconfirmed_messages, relayer, first + second)
            == contents.accepted(lane_id, max_unconfirmed_messages, relayer, first)
            + contents.after_deliveries(
            lane_id,
            max_unconfirmed_messages,
            relayer,
            nonces_of(first),
        ).accepted(lane_id, max_unconfirmed_messages, relayer, second),
        ({
            let lane = contents.inbound_lane(lane_id);
            let accepted = contents.accepted(
                lane_id,
                max_unconfirmed_messages,
                relayer,
                seq![message],
            );
            let has_room = if lane.relayers.len() > 0 && lane.relayers[lane.relayers.len() - 1].2
                == relayer {
                lane.relayers.len() <= max_unconfirmed_messages
            } else {
                lane.relayers.len() < max_unconfirmed_messages
            };
            if message.key.nonce == lane.latest_received_nonce + 1 && has_room {
                &&& accepted.len() == 1
                &&& accepted[0].key.lane_id == lane_id
                &&& accepted[0].key.nonce == message.key.nonce
                &&& accepted[0].data == message.data
            } else {
                accepted.len() == 0
            }
        }),
        contents.accepted(
            lane_id,
            max_unconfirmed_messages,
            relayer,
            Seq::<DispatchMessage<Payload, InboundFee>>::empty(),
        ).len() == 0,
        nonces_of(first).len() == first.len(),
        forall|i: int|
            0 <= i < first.len() ==> #[trigger] nonces_of(first)[i] == first[i].key.nonce,
    decreases second.len(),
{
    let none = Seq::<DispatchMessage<Payload, InboundFee>>::empty();
    assert(seq![message].drop_last() =~= none);
    assert(nonces_of(none) =~= Seq::<MessageNonce>::empty());
    assert(contents.accepted(
        lane_id,
        max_unconfirmed_messages,
        relayer,
        seq![message].drop_last(),
    ).len() == 0);
    next_message_is_accepted_if_there_is_room(
        contents.inbound_lane(lane_id),
        max_unconfirmed_messages,
        relayer,
        message.key.nonce,
    );
    let reached = contents.after_deliveries(
        lane_id,
        max_unconfirmed_messages,
        relayer,
        nonces_of(first),
    );
    let accepted = contents.accepted(lane_id, max_unconfirmed_messages, relayer, first);
    if second.len() == 0 {
        assert(first + second =~= first);
        assert(accepted + reached.accepted(lane_id, max_unconfirmed_messages, relayer, second)
            =~= accepted);
    } else {
        let earlier = second.drop_last();
        acceptances_add_up(
            contents,
            lane_id,
            max_unconfirmed_messages,
            relayer,
            first,
            earlier,
            message,
        );
        assert((first + second).drop_last() =~= first + earlier);
        assert((first + second).last() == second.last());
        assert(nonces_of(first + earlier) =~= nonces_of(first) + nonces_of(earlier));
        deliveries_add_up(
            contents,
            lane_id,
            max_unconfirmed_messages,
            relayer,
            nonces_of(first),
            nonces_of(earlier),
            0,
        );
        assert(contents.accepted(lane_id, max_unconfirmed_messages, relayer, first + second)
            =~= accepted + reached.accepted(lane_id, max_unconfirmed_messages, relayer, second));
    }
}

/// What a proof holds is taken in lane after lane; of a single lane first its state is taken in,
/// where there is one, then its messages, and those are dispatched that are accepted then.
pub proof fn lanes_add_up<RelayerId, Fee, Payload, InboundFee>(
    contents: StoreContents<RelayerId, Fee>,
    max_unconfirmed_messages: MessageNonce,
    relayer: RelayerId,
    first: Seq<(LaneId, ProvedLaneMessages<DispatchMessage<Payload, InboundFee>>)>,
    second: Seq<(LaneId, ProvedLaneMessages<DispatchMessage<Payload, InboundFee>>)>,
    lane: (LaneId, ProvedLaneMessages<DispatchMessage<Payload, InboundFee>>),
)
    ensures
        ({
            let reached = contents.after_lanes(max_unconfirmed_messages, relayer, first);
            &&& contents.after_lanes(max_unconfirmed_messages, relayer, first + second)
                == reached.after_lanes(max_unconfirmed_messages, relayer, second)
            &&& contents.accepted_of_lanes(max_unconfirmed_messages, relayer, first + second)
                == contents.accepted_of_lanes(max_unconfirmed_messages, relayer, first)
                + reached.accepted_of_lanes(max_unconfirmed_messages, relayer, second)
        }),
        ({
            let updated = match lane.1.lane_state {
                Some(lane_state) => contents.after_state_update(lane.0, lane_state),
                None => contents,
            };
            &&& contents.after_lanes(max_unconfirmed_messages, relayer, seq![lane])
                == updated.after_deliveries(
                lane.0,
                max_unconfirmed_messages,
                relayer,
                nonces_of(lane.1.messages@),
            )
            &&& contents.accepted_of_lanes(max_unconfirmed_messages, relayer, seq![lane])
                == updated.accepted(
                lane.0,
                max_unconfirmed_messages,
                relayer,
                lane.1.messages@,
            )
        }),
        ({
            let none =
                Seq::<(LaneId, ProvedLaneMessages<DispatchMessage<Payload, InboundFee>>)>::empty();
            &&& contents.after_lanes(max_unconfirmed_messages, relayer, none) == contents
            &&& contents.accepted_of_lanes(max_unconfirmed_messages, relayer, none).len() == 0
        }),
    decreases second.len(),
{
    let none = Seq::<(LaneId, ProvedLaneMessages<DispatchMessage<Payload, InboundFee>>)>::empty();
    assert(seq![lane].drop_last() =~= none);
    assert(contents.after_lanes(max_unconfirmed_messages, relayer, none) == contents);
    let nothing = contents.accepted_of_lanes(max_unconfirmed_messages, relayer, none);
    assert(nothing.len() == 0);
    let updated = match lane.1.lane_state {
        Some(lane_state) => contents.after_state_update(lane.0, lane_state),
        None => contents,
    };
    let taken = updated.accepted(lane.0, max_unconfirmed_messages, relayer, lane.1.messages@);
    assert(nothing + taken =~= taken);
    let reached = contents.after_lanes(max_unconfirmed_messages, relayer, first);
    let accepted = contents.accepted_of_lanes(max_unconfirmed_messages, relayer, first);
    if second.len() == 0 {
        assert(first + second =~= first);
        assert(accepted + reached.accepted_of_lanes(max_unconfirmed_messages, relayer, second)
            =~= accepted);
    } else {
        lanes_add_up(
            contents,
            max_unconfirmed_messages,
            relayer,
            first,
            second.drop_last(),
            lane,
        );
        assert((first + second).drop_last() =~= first + second.drop_last());
        assert((first + second).last() == second.last());
        assert(contents.accepted_of_lanes(max_unconfirmed_messages, relayer, first + second)
            =~= accepted + reached.accepted_of_lanes(max_unconfirmed_messages, relayer, second));
    }
}

/// Those of the first `n` lane identifiers that are in the set, in ascending order.
spec fn first_in_order(lanes: Set<LaneId>, n: nat) -> Seq<LaneId>
    decreases n,
{
    if n == 0 {
        Seq::empty()
    } else if lanes.contains((n - 1) as LaneId) {
        first_in_order(lanes, (n - 1) as nat).push((n - 1) as LaneId)
    } else {
        first_in_order(lanes, (n - 1) as nat)
    }
}

proof fn lemma_first_in_order(lanes: Set<LaneId>, n: nat)
    requires
        n <= LaneId::MAX + 1,
    ensures
        ({
            let order = first_in_order(lanes, n);
            &&& forall|i: int, j: int| 0 <= i < j < order.len() ==> order[i] < order[j]
            &&& forall|i: int| 0 <= i < order.len() ==> #[trigger] order[i] < n
            &&& forall|lane_id: LaneId| #[trigger]
                order.contains(lane_id) <==> lanes.contains(lane_id) && lane_id < n
        }),
    decreases n,
{
    if n > 0 {
        let before = first_in_order(lanes, (n - 1) as nat);
        let order = first_in_order(lanes, n);
        lemma_first_in_order(lanes, (n - 1) as nat);
        assert forall|lane_id: LaneId| #[trigger]
            order.contains(lane_id) <==> lanes.contains(lane_id) && lane_id < n by {
            assert(before.contains(lane_id) <==> lanes.contains(lane_id) && lane_id < n - 1);
            if before.contains(lane_id) {
                let i = choose|i: int| 0 <= i < before.len() && before[i] == lane_id;
                assert(order[i] == lane_id);
            }
            if lane_id == n - 1 && lanes.contains(lane_id) {
                assert(order[order.len() - 1] == lane_id);
            }
            if order.contains(lane_id) {
                let i = choose|i: int| 0 <= i < order.len() && order[i] == lane_id;
                if i < before.len() {
                    assert(before[i] == lane_id);
                }
            }
        }
    }
}

/// The lanes of a proof are taken in ascending order of their identifiers, each of them once, with
/// what the proof holds of it.
pub proof fn lanes_are_taken_in_ascending_order<Value>(lanes: Map<LaneId, Value>)
    ensures
        ({
            let ordered = ordered_lanes(lanes);
            &&& forall|i: int, j: int|
                0 <= i < j < ordered.len() ==> (#[trigger] ordered[i]).0 < (#[trigger] ordered[j]).0
            &&& forall|i: int|
                0 <= i < ordered.len() ==> lanes.contains_key((#[trigger] ordered[i]).0)
                    && ordered[i].1 == lanes[ordered[i].0]
            &&& forall|lane_id: LaneId| #[trigger]
                lanes.contains_key(lane_id) ==> ordered.contains((lane_id, lanes[lane_id]))
        }),
{
    let dom = lanes.dom();
    let all = first_in_order(dom, (LaneId::MAX + 1) as nat);
    lemma_first_in_order(dom, (LaneId::MAX + 1) as nat);
    assert(ascending(all, dom));
    let order = in_order(dom);
    assert(ascending(order, dom));
    let ordered = ordered_lanes(lanes);
    assert forall|i: int| 0 <= i < ordered.len() implies lanes.contains_key(
        (#[trigger] ordered[i]).0,
    ) && ordered[i].1 == lanes[ordered[i].0] by {
        assert(order.contains(order[i]));
        assert(dom.contains(order[i]));
    }
    assert forall|lane_id: LaneId| #[trigger] lanes.contains_key(lane_id) implies ordered.contains(
        (lane_id, lanes[lane_id]),
    ) by {
        assert(dom.contains(lane_id));
        let i = choose|i: int| 0 <= i < order.len() && order[i] == lane_id;
        assert(ordered[i] == (lane_id, lanes[lane_id]));
    }
}

/// Decoding keeps the lanes, their states, the number and the order of the messages, all keys and
/// all fees; each payload is what reading its own bytes may give.
pub proof fn decoding_reads_each_payload_from_its_bytes<Payload: Decode, Fee>(
    lanes: Map<LaneId, ProvedLaneMessages<Message<Fee>>>,
    decoded: Map<LaneId, ProvedLaneMessages<DispatchMessage<Payload, Fee>>>,
)
    ensures
        all_decoded_from(lanes, decoded) <==> {
            &&& forall|lane_id: LaneId| #[trigger]
                lanes.contains_key(lane_id) <==> decoded.contains_key(lane_id)
            &&& forall|lane_id: LaneId| #[trigger]
                decoded.contains_key(lane_id) ==> {
                    &&& decoded[lane_id].lane_state == lanes[lane_id].lane_state
                    &&& decoded[lane_id].messages@.len() == lanes[lane_id].messages@.len()
                    &&& forall|i: int|
                        0 <= i < lanes[lane_id].messages@.len() ==> {
                            let message = lanes[lane_id].messages@[i];
                            let result = #[trigger] decoded[lane_id].messages@[i];
                            &&& result.key == message.key
                            &&& result.data.fee == message.data.fee
                            &&& Payload::decodes_to(message.data.payload@, result.data.payload)
                        }
                }
        },
{
    if all_decoded_from(lanes, decoded) {
        assert forall|lane_id: LaneId| #[trigger] decoded.contains_key(lane_id) implies
            lane_decoded_from(lanes[lane_id], decoded[lane_id]) by {
            assert(lanes.contains_key(lane_id));
        }
        assert forall|lane_id: LaneId| #[trigger]
            lanes.contains_key(lane_id) <==> decoded.contains_key(lane_id) by {
            assert(lanes.dom().contains(lane_id) <==> decoded.dom().contains(lane_id));
        }
    }
    if (forall|lane_id: LaneId| #[trigger]
        lanes.contains_key(lane_id) <==> decoded.contains_key(lane_id)) {
        assert(lanes.dom() =~= decoded.dom());
    }
}

/// A proof is answered with the decoded messages of what the source chain has found in it, or with
/// the source chain's own refusal.
pub proof fn proof_is_answered_as_the_chain_says<
    Chain: SourceHeaderChain<Fee>,
    Fee,
    Payload: Decode,
>(
    chain: Chain,
    proof_of_messages: Chain::MessagesProof,
    messages: Result<ProvedMessages<DispatchMessage<Payload, Fee>>, Chain::Error>,
)
    ensures
        proof_decoded::<Chain, Fee, Payload>(chain, proof_of_messages, messages) <==> match messages {
            Ok(decoded) => exists|proved: ProvedMessages<Message<Fee>>|
                {
                    &&& #[trigger] chain.proof_verdict(proof_of_messages, Ok(proved))
                    &&& all_decoded_from(proved@, decoded@)
                },
            Err(error) => chain.proof_verdict(proof_of_messages, Err(error)),
        },
{
}

/// The bytes of a call are those of its number and then those of its weight, eight of each, the
/// least significant byte first; the call is read from the first sixteen bytes, and only fewer
/// bytes than that are not read.
pub proof fn calls_travel_as_sixteen_bytes(
    call: (u64, Weight),
    bytes: Seq<u8>,
    payload: Result<(u64, Weight), DecodeError>,
)
    ensures
        call.encodes_to(bytes) <==> bytes == vstd::bytes::spec_u64_to_le_bytes(call.0)
            + vstd::bytes::spec_u64_to_le_bytes(call.1),
        <(u64, Weight) as Decode>::decodes_to(bytes, payload) <==> match payload {
            Ok(read) => {
                &&& bytes.len() >= 16
                &&& read.0 == vstd::bytes::spec_u64_from_le_bytes(bytes.subrange(0, 8))
                &&& read.1 == vstd::bytes::spec_u64_from_le_bytes(bytes.subrange(8, 16))
            },
            Err(_) => bytes.len() < 16,
        },
{
    match payload {
        Ok(read) => {
            assert(read == (read.0, read.1));
        },
        Err(error) => {
            assert(error == DecodeError);
        },
    }
}

} // verus!
