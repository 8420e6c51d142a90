//! Messages that a proof of the bridged chain delivers: their order, and the decoding of their
//! payloads.
use crate::codec::{decode_message, decoded_from, decodes_one_way, Decode, DispatchMessage};
use crate::config::SourceHeaderChain;
use crate::primitives::{LaneId, Message, ProvedLaneMessages, ProvedMessages};
use std::collections::BTreeMap;
use vstd::laws_cmp::obeys_cmp;
use vstd::prelude::*;
use vstd::std_specs::btree::{axiom_increasing_seq_meaning, increasing_seq};
use vstd::std_specs::cmp::OrdSpec;

verus! {

/// The sequence holds the lanes of the set, each once, in ascending order.
pub open spec fn ascending(order: Seq<LaneId>, lanes: Set<LaneId>) -> bool {
    &&& forall|i: int, j: int| 0 <= i < j < order.len() ==> order[i] < order[j]
    &&& forall|lane_id: LaneId| #[trigger] lanes.contains(lane_id) <==> order.contains(lane_id)
}

/// The lanes of the set in ascending order.
pub open spec fn in_order(lanes: Set<LaneId>) -> Seq<LaneId> {
    choose|order: Seq<LaneId>| ascending(order, lanes)
}

/// The lanes of the map in ascending order, each with what the map holds of it.
pub open spec fn ordered_lanes<Value>(lanes: Map<LaneId, Value>) -> Seq<(LaneId, Value)> {
    let order = in_order(lanes.dom());
    Seq::new(order.len(), |i: int| (order[i], lanes[order[i]]))
}

/// There is only one ascending order.
pub proof fn ascending_order_is_unique(
    first: Seq<LaneId>,
    second: Seq<LaneId>,
    lanes: Set<LaneId>,
)
    requires
        ascending(first, lanes),
        ascending(second, lanes),
    ensures
        first == second,
{
    lemma_no_shorter_order(first, second, lanes, first.len() as int);
    lemma_no_shorter_order(second, first, lanes, second.len() as int);
    assert(first =~= second);
}

/// Two ascending orders of the same lanes agree as far as the first of them goes.
proof fn lemma_no_shorter_order(
    first: Seq<LaneId>,
    second: Seq<LaneId>,
    lanes: Set<LaneId>,
    n: int,
)
    requires
        ascending(first, lanes),
        ascending(second, lanes),
        0 <= n <= first.len(),
    ensures
        n <= second.len(),
        forall|i: int| 0 <= i < n ==> first[i] == second[i],
    decreases n,
{
    if n > 0 {
        lemma_no_shorter_order(first, second, lanes, n - 1);
        let x = first[n - 1];
        assert(first.contains(x));
        assert(lanes.contains(x));
        assert(second.contains(x));
        let j = choose|j: int| 0 <= j < second.len() && second[j] == x;
        if j < n - 1 {
            assert(first[j] == second[j]);
            assert(false);
        }
        let y = second[n - 1];
        assert(second.contains(y));
        assert(lanes.contains(y));
        assert(first.contains(y));
        let k = choose|k: int| 0 <= k < first.len() && first[k] == y;
        if k < n - 1 {
            assert(first[k] == second[k]);
            assert(false);
        }
    }
}

/// Gives the keys of the map in ascending order.
fn keys_in_order<Value>(lanes: &BTreeMap<LaneId, Value>) -> (order: Vec<LaneId>)
    ensures
        ascending(order@, lanes@.dom()),
{
    let mut order: Vec<LaneId> = Vec::new();
    let ghost mut keys: Seq<&LaneId> = Seq::empty();
    for lane_id in it: lanes.keys()
        invariant
            it.seq().unref().to_set() == lanes@.dom(),
            increasing_seq(it.seq()),
            order@.len() == it.index(),
            keys == it.seq().take(it.index()),
            it.index() == it.seq().len() ==> keys =~= it.seq(),
            forall|i: int| 0 <= i < order@.len() ==> order@[i] == *it.seq()[i],
        ensures
            keys.unref().to_set() == lanes@.dom(),
            increasing_seq(keys),
            order@.len() == keys.len(),
            forall|i: int| 0 <= i < order@.len() ==> order@[i] == *keys[i],
    {
        order.push(*lane_id);
        proof {
            keys = keys.push(lane_id);
            assert(keys =~= it.seq().take(it.index() + 1));
        }
    }
    proof {
        let plain_keys = keys.unref();
        assert(order@ =~= plain_keys);
        assert forall|lane_id: LaneId| #[trigger]
            lanes@.dom().contains(lane_id) <==> order@.contains(lane_id) by {
            assert(plain_keys.to_set().contains(lane_id) <==> plain_keys.contains(lane_id));
        }
        assert(obeys_cmp::<LaneId>());
        assert(obeys_cmp::<&LaneId>());
        axiom_increasing_seq_meaning(keys);
        assert forall|i: int, j: int| 0 <= i < j < order@.len() implies order@[i] < order@[j] by {
            assert(OrdSpec::cmp_spec(&keys[i], &keys[j]) is Less);
        }
    }
    order
}

/// Gives the lanes of the map in ascending order.
pub fn lanes_in_order<Value>(lanes: BTreeMap<LaneId, Value>) -> (ordered: Vec<(LaneId, Value)>)
    ensures
        ordered@ == ordered_lanes(lanes@),
        ascending(in_order(lanes@.dom()), lanes@.dom()),
{
    let ghost all = lanes@;
    let order = keys_in_order(&lanes);
    proof {
        ascending_order_is_unique(order@, in_order(all.dom()), all.dom());
    }
    let mut rest = lanes;
    let mut ordered: Vec<(LaneId, Value)> = Vec::new();
    let mut i: usize = 0;
    while i < order.len()
        invariant
            i <= order@.len(),
            ascending(order@, all.dom()),
            order@ == in_order(all.dom()),
            ordered@ =~= ordered_lanes(all).take(i as int),
            forall|j: int|
                i <= j < order@.len() ==> #[trigger] rest@.contains_key(order@[j])
                    && rest@[order@[j]] == all[order@[j]],
        decreases order@.len() - i,
    {
        let lane_id: LaneId = order[i];
        if let Some(value) = rest.remove(&lane_id) {
            ordered.push((lane_id, value));
        }
        i += 1;
    }
    ordered
}

/// `decoded` is `lane` with the payloads of its messages decoded, in the same order.
pub open spec fn lane_decoded_from<Payload: Decode, Fee>(
    lane: ProvedLaneMessages<Message<Fee>>,
    decoded: ProvedLaneMessages<DispatchMessage<Payload, Fee>>,
) -> bool {
    &&& decoded.lane_state == lane.lane_state
    &&& decoded.messages@.len() == lane.messages@.len()
    &&& forall|i: int|
        0 <= i < lane.messages@.len() ==> decoded_from(
            lane.messages@[i],
            #[trigger] decoded.messages@[i],
        )
}

/// `decoded` holds the lanes of `lanes`, each with the payloads of its messages decoded.
pub open spec fn all_decoded_from<Payload: Decode, Fee>(
    lanes: Map<LaneId, ProvedLaneMessages<Message<Fee>>>,
    decoded: Map<LaneId, ProvedLaneMessages<DispatchMessage<Payload, Fee>>>,
) -> bool {
    &&& decoded.dom() == lanes.dom()
    &&& forall|lane_id: LaneId| #[trigger]
        lanes.contains_key(lane_id) ==> lane_decoded_from(lanes[lane_id], decoded[lane_id])
}

/// The lanes hold the same, except that the bytes of the payload of message `i` of lane `lane_id`
/// may differ.
pub open spec fn same_but_for_payload_bytes<Fee>(
    lanes: Map<LaneId, ProvedLaneMessages<Message<Fee>>>,
    others: Map<LaneId, ProvedLaneMessages<Message<Fee>>>,
    lane_id: LaneId,
    i: int,
) -> bool {
    &&& lanes.dom() == others.dom()
    &&& forall|id: LaneId| #[trigger]
        lanes.contains_key(id) ==> {
            &&& lanes[id].lane_state == others[id].lane_state
            &&& lanes[id].messages@.len() == others[id].messages@.len()
            &&& forall|k: int|
                #![trigger lanes[id].messages@[k]]
                #![trigger others[id].messages@[k]]
                0 <= k < lanes[id].messages@.len() ==> {
                    let message = lanes[id].messages@[k];
                    let other = others[id].messages@[k];
                    &&& message.key == other.key
                    &&& message.data.fee == other.data.fee
                    &&& (id, k) != (lane_id, i) ==> message.data.payload@ == other.data.payload@
                }
        }
}

/// Reading the bytes of each message but message `i` of lane `lane_id` can have one outcome only.
pub open spec fn others_decode_one_way<Payload: Decode, Fee>(
    lanes: Map<LaneId, ProvedLaneMessages<Message<Fee>>>,
    lane_id: LaneId,
    i: int,
) -> bool {
    forall|id: LaneId, k: int|
        lanes.contains_key(id) && 0 <= k < lanes[id].messages@.len() && (id, k) != (lane_id, i)
            ==> decodes_one_way::<Payload>((#[trigger] lanes[id].messages@[k]).data.payload@)
}

/// The lanes hold the same, except that the decoded payload of message `i` of lane `lane_id` may
/// differ.
pub open spec fn same_but_for_payload<Payload, Fee>(
    lanes: Map<LaneId, ProvedLaneMessages<DispatchMessage<Payload, Fee>>>,
    others: Map<LaneId, ProvedLaneMessages<DispatchMessage<Payload, Fee>>>,
    lane_id: LaneId,
    i: int,
) -> bool {
    &&& lanes.dom() == others.dom()
    &&& forall|id: LaneId| #[trigger]
        lanes.contains_key(id) ==> {
            &&& lanes[id].lane_state == others[id].lane_state
            &&& lanes[id].messages@.len() == others[id].messages@.len()
            &&& forall|k: int|
                #![trigger lanes[id].messages@[k]]
                #![trigger others[id].messages@[k]]
                0 <= k < lanes[id].messages@.len() ==> {
                    let message = lanes[id].messages@[k];
                    let other = others[id].messages@[k];
                    &&& message.key == other.key
                    &&& message.data.fee == other.data.fee
                    &&& (id, k) != (lane_id, i) ==> message == other
                }
        }
}

/// Tells whether verifying the proof and decoding what it holds may end with `messages`.
pub open spec fn proof_decoded<Chain: SourceHeaderChain<Fee>, Fee, DispatchPayload: Decode>(
    chain: Chain,
    proof: Chain::MessagesProof,
    messages: Result<ProvedMessages<DispatchMessage<DispatchPayload, Fee>>, Chain::Error>,
) -> bool {
    exists|verdict: Result<ProvedMessages<Message<Fee>>, Chain::Error>|
        {
            &&& #[trigger] chain.proof_verdict(proof, verdict)
            &&& match (verdict, messages) {
                (Ok(proved), Ok(decoded)) => all_decoded_from(proved@, decoded@),
                (Err(error), Err(given)) => error == given,
                _ => false,
            }
        }
}

/// The verification of the proof can end in one way only: it gives these lanes.
pub open spec fn proves<Chain: SourceHeaderChain<Fee>, Fee>(
    chain: Chain,
    proof: Chain::MessagesProof,
    lanes: Map<LaneId, ProvedLaneMessages<Message<Fee>>>,
) -> bool {
    forall|verdict: Result<ProvedMessages<Message<Fee>>, Chain::Error>| #[trigger]
        chain.proof_verdict(proof, verdict) ==> {
            &&& verdict matches Ok(proved)
            &&& proved@ == lanes
        }
}

/// Decodes the payloads of the messages of a lane.
pub fn decode_lane<Payload: Decode, Fee>(lane: ProvedLaneMessages<Message<Fee>>) -> (decoded:
    ProvedLaneMessages<DispatchMessage<Payload, Fee>>)
    ensures
        lane_decoded_from(lane, decoded),
{
    let ghost all = lane.messages@;
    let mut messages: Vec<DispatchMessage<Payload, Fee>> = Vec::new();
    for message in it: lane.messages
        invariant
            it.seq() == all,
            messages@.len() == it.index(),
            forall|i: int|
                0 <= i < messages@.len() ==> decoded_from(all[i], #[trigger] messages@[i]),
    {
        messages.push(decode_message(message));
    }
    ProvedLaneMessages { lane_state: lane.lane_state, messages }
}

/// Decodes the payloads of all messages.
pub fn decode_proved_messages<Payload: Decode, Fee>(lanes: ProvedMessages<Message<Fee>>) -> (decoded:
    ProvedMessages<DispatchMessage<Payload, Fee>>)
    ensures
        all_decoded_from(lanes@, decoded@),
{
    let ghost all = lanes@;
    let ghost order = in_order(all.dom());
    let ordered = lanes_in_order(lanes);
    let mut decoded: ProvedMessages<DispatchMessage<Payload, Fee>> = BTreeMap::new();
    for lane in it: ordered
        invariant
            it.seq() == ordered_lanes(all),
            order == in_order(all.dom()),
            ascending(order, all.dom()),
            forall|lane_id: LaneId| #[trigger]
                decoded@.contains_key(lane_id) <==> order.take(it.index()).contains(lane_id),
            forall|lane_id: LaneId| #[trigger]
                decoded@.contains_key(lane_id) ==> lane_decoded_from(
                    all[lane_id],
                    decoded@[lane_id],
                ),
    {
        let ghost before = decoded@;
        decoded.insert(lane.0, decode_lane(lane.1));
        proof {
            let i = it.index();
            assert(order.take(i + 1) =~= order.take(i).push(order[i]));
            assert forall|lane_id: LaneId| #[trigger]
                decoded@.contains_key(lane_id) <==> order.take(i + 1).contains(lane_id) by {
                if order.take(i).contains(lane_id) {
                    let k = choose|k: int| 0 <= k < i && order.take(i)[k] == lane_id;
                    assert(order.take(i + 1)[k] == lane_id);
                }
                if lane_id == order[i] {
                    assert(order.take(i + 1)[i] == lane_id);
                }
                if order.take(i + 1).contains(lane_id) && lane_id != order[i] {
                    let after = order.take(i + 1);
                    let k = choose|k: int| 0 <= k < after.len() && after[k] == lane_id;
                    assert(order.take(i)[k] == lane_id);
                }
            }
        }
    }
    assert(order.take(order.len() as int) =~= order);
    assert(decoded@.dom() =~= all.dom());
    decoded
}

/// Verifies the proof of the messages and gives the messages with decoded payloads. A payload
/// that does not decode is no reason to refuse the proof.
pub fn verify_and_decode_messages_proof<
    Chain: SourceHeaderChain<Fee>,
    Fee,
    DispatchPayload: Decode,
>(chain: &Chain, proof: Chain::MessagesProof) -> (messages: Result<
    ProvedMessages<DispatchMessage<DispatchPayload, Fee>>,
    Chain::Error,
>)
    ensures
        proof_decoded::<Chain, Fee, DispatchPayload>(*chain, proof, messages),
{
    match chain.verify_messages_proof(proof) {
        Ok(messages_by_lane) => Ok(decode_proved_messages(messages_by_lane)),
        Err(error) => Err(error),
    }
}

} // verus!
