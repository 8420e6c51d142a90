//! Receival of the messages that a proof of the bridged chain delivers.
use crate::codec::DispatchMessage;
use crate::config::{dispatched, MessageDispatch};
use crate::inbound_lane::{nonces_of, InboundLane};
use crate::primitives::{
    LaneId, MessageNonce, OutboundLaneData, Parameter, ProvedLaneMessages, Weight,
};
use crate::runtime_storage::RuntimeInboundLaneStorage;
use crate::store::{Store, StoreContents};
use vstd::prelude::*;

verus! {

/// Sum of the weights.
pub open spec fn total_weight(weights: Seq<Weight>) -> int
    decreases weights.len(),
{
    if weights.len() == 0 {
        0
    } else {
        total_weight(weights.drop_last()) + weights.last()
    }
}

/// Each of the messages may be said to take the weight at its place.
pub open spec fn weighed<Fee, Dispatch: MessageDispatch<Fee>>(
    dispatch: Dispatch,
    messages: Seq<DispatchMessage<Dispatch::DispatchPayload, Fee>>,
    weights: Seq<Weight>,
) -> bool {
    &&& weights.len() == messages.len()
    &&& forall|i: int|
        0 <= i < messages.len() ==> dispatch.weighs(messages[i], #[trigger] weights[i])
}

/// Messages of all lanes, lane by lane.
pub open spec fn messages_of_lanes<Message>(
    lanes: Seq<(LaneId, ProvedLaneMessages<Message>)>,
) -> Seq<Message>
    decreases lanes.len(),
{
    if lanes.len() == 0 {
        Seq::empty()
    } else {
        messages_of_lanes(lanes.drop_last()) + lanes.last().1.messages@
    }
}

impl<RelayerId, Fee> StoreContents<RelayerId, Fee> {
    /// The storage after the state of the outbound lane at the bridged chain has come in, where
    /// there is one.
    pub open spec fn after_lane_state(
        self,
        lane_id: LaneId,
        lane_state: Option<OutboundLaneData>,
    ) -> Self {
        match lane_state {
            Some(lane_state) => self.after_state_update(lane_id, lane_state),
            None => self,
        }
    }

    /// The storage after all that a proof holds of the lanes has come in, lane by lane: of each
    /// lane first its state, then its messages.
    pub open spec fn after_lanes<Payload, InboundFee>(
        self,
        max_unconfirmed_messages: MessageNonce,
        relayer: RelayerId,
        lanes: Seq<(LaneId, ProvedLaneMessages<DispatchMessage<Payload, InboundFee>>)>,
    ) -> Self
        decreases lanes.len(),
    {
        if lanes.len() == 0 {
            self
        } else {
            let (lane_id, lane) = lanes.last();
            self.after_lanes(
                max_unconfirmed_messages,
                relayer,
                lanes.drop_last(),
            ).after_lane_state(lane_id, lane.lane_state).after_deliveries(
                lane_id,
                max_unconfirmed_messages,
                relayer,
                nonces_of(lane.messages@),
            )
        }
    }

    /// Those of the messages that a proof holds that are accepted, as they are dispatched.
    pub open spec fn accepted_of_lanes<Payload, InboundFee>(
        self,
        max_unconfirmed_messages: MessageNonce,
        relayer: RelayerId,
        lanes: Seq<(LaneId, ProvedLaneMessages<DispatchMessage<Payload, InboundFee>>)>,
    ) -> Seq<DispatchMessage<Payload, InboundFee>>
        decreases lanes.len(),
    {
        if lanes.len() == 0 {
            Seq::empty()
        } else {
            let (lane_id, lane) = lanes.last();
            self.accepted_of_lanes(max_unconfirmed_messages, relayer, lanes.drop_last())
                + self.after_lanes(
                max_unconfirmed_messages,
                relayer,
                lanes.drop_last(),
            ).after_lane_state(lane_id, lane.lane_state).accepted(
                lane_id,
                max_unconfirmed_messages,
                relayer,
                lane.messages@,
            )
        }
    }
}

/// Dispatching messages and then more messages is dispatching all of them.
pub proof fn dispatches_add_up<Fee, Dispatch: MessageDispatch<Fee>>(
    before: Dispatch,
    first: Seq<DispatchMessage<Dispatch::DispatchPayload, Fee>>,
    between: Dispatch,
    second: Seq<DispatchMessage<Dispatch::DispatchPayload, Fee>>,
    after: Dispatch,
)
    requires
        dispatched::<Fee, Dispatch>(before, first, between),
        dispatched::<Fee, Dispatch>(between, second, after),
    ensures
        dispatched::<Fee, Dispatch>(before, first + second, after),
    decreases second.len(),
{
    if second.len() == 0 {
        assert(first + second =~= first);
    } else {
        let last = choose|last: Dispatch|
            {
                &&& dispatched::<Fee, Dispatch>(between, second.drop_last(), last)
                &&& #[trigger] Dispatch::dispatches(last, second.last(), after)
            };
        dispatches_add_up::<Fee, Dispatch>(before, first, between, second.drop_last(), last);
        assert((first + second).drop_last() =~= first + second.drop_last());
        assert((first + second).last() == second.last());
    }
}

/// Adds up the weights that the dispatch of the messages of all lanes takes. Gives `None` if the
/// sum is beyond every weight that can be declared.
pub fn dispatch_weight_of_lanes<Fee, Dispatch: MessageDispatch<Fee>>(
    dispatch: &Dispatch,
    lanes: &Vec<(LaneId, ProvedLaneMessages<DispatchMessage<Dispatch::DispatchPayload, Fee>>)>,
) -> (sum: Option<Weight>)
    ensures
        exists|weights: Seq<Weight>|
            {
                &&& #[trigger] weighed::<Fee, Dispatch>(
                    *dispatch,
                    messages_of_lanes(lanes@),
                    weights,
                )
                &&& match sum {
                    Some(sum) => sum == total_weight(weights),
                    None => total_weight(weights) > Weight::MAX,
                }
            },
{
    let mut sum: Option<Weight> = Some(0);
    let ghost mut weights: Seq<Weight> = Seq::empty();
    let mut i: usize = 0;
    while i < lanes.len()
        invariant
            i <= lanes@.len(),
            weighed::<Fee, Dispatch>(
                *dispatch,
                messages_of_lanes(lanes@.take(i as int)),
                weights,
            ),
            match sum {
                Some(sum) => sum == total_weight(weights),
                None => total_weight(weights) > Weight::MAX,
            },
        decreases lanes@.len() - i,
    {
        let messages = &lanes[i].1.messages;
        let ghost earlier = messages_of_lanes(lanes@.take(i as int));
        assert(earlier + messages@.take(0) =~= earlier);
        let mut j: usize = 0;
        while j < messages.len()
            invariant
                j <= messages@.len(),
                weighed::<Fee, Dispatch>(*dispatch, earlier + messages@.take(j as int), weights),
                match sum {
                    Some(sum) => sum == total_weight(weights),
                    None => total_weight(weights) > Weight::MAX,
                },
            decreases messages@.len() - j,
        {
            let weight: Weight = dispatch.dispatch_weight(&messages[j]);
            sum = match sum {
                Some(sum) => sum.checked_add(weight),
                None => None,
            };
            proof {
                let before = weights;
                weights = before.push(weight);
                assert(weights.drop_last() =~= before);
                assert(earlier + messages@.take(j + 1) =~= (earlier + messages@.take(
                    j as int,
                )).push(messages@[j as int]));
            }
            j += 1;
        }
        proof {
            assert(messages@.take(j as int) =~= messages@);
            assert(lanes@.take(i + 1).drop_last() =~= lanes@.take(i as int));
        }
        i += 1;
    }
    assert(lanes@.take(i as int) =~= lanes@);
    sum
}

/// Creates new inbound lane object.
pub fn inbound_lane<RelayerId: Parameter>(
    lane_id: LaneId,
    max_unconfirmed_messages: MessageNonce,
) -> (lane: InboundLane<RelayerId>)
    ensures
        lane.storage == (RuntimeInboundLaneStorage {
            lane_id,
            max_unconfirmed_messages,
            cached_data: None::<crate::primitives::InboundLaneData<RelayerId>>,
        }),
{
    InboundLane::new(
        RuntimeInboundLaneStorage { lane_id, max_unconfirmed_messages, cached_data: None },
    )
}

/// Takes in what a proof holds of a lane: first its state, then its messages. The messages that
/// are accepted are dispatched.
pub fn receive_lane<S: Store, Fee, Dispatch: MessageDispatch<Fee>>(
    store: &mut S,
    dispatch: &mut Dispatch,
    max_unconfirmed_messages: MessageNonce,
    relayer: &S::Relayer,
    lane_id: LaneId,
    lane_data: ProvedLaneMessages<DispatchMessage<Dispatch::DispatchPayload, Fee>>,
) where S::Relayer: Parameter
    ensures
        final(store).contents() == old(store).contents().after_lane_state(
            lane_id,
            lane_data.lane_state,
        ).after_deliveries(
            lane_id,
            max_unconfirmed_messages,
            *relayer,
            nonces_of(lane_data.messages@),
        ),
        dispatched::<Fee, Dispatch>(
            *old(dispatch),
            old(store).contents().after_lane_state(lane_id, lane_data.lane_state).accepted(
                lane_id,
                max_unconfirmed_messages,
                *relayer,
                lane_data.messages@,
            ),
            *final(dispatch),
        ),
{
    let mut lane = inbound_lane::<S::Relayer>(lane_id, max_unconfirmed_messages);
    if let Some(lane_state) = lane_data.lane_state {
        let _ = lane.receive_state_update(store, lane_state);
    }
    let ghost contents = store.contents();
    let ghost messages = lane_data.messages@;
    let ghost first_dispatch = *dispatch;
    for message in it: lane_data.messages
        invariant
            it.seq() == messages,
            lane.storage.lane_id == lane_id,
            lane.storage.max_unconfirmed_messages == max_unconfirmed_messages,
            lane.storage.in_step_with(store.contents()),
            store.contents() == contents.after_deliveries(
                lane_id,
                max_unconfirmed_messages,
                *relayer,
                nonces_of(messages.take(it.index())),
            ),
            dispatched::<Fee, Dispatch>(
                first_dispatch,
                contents.accepted(
                    lane_id,
                    max_unconfirmed_messages,
                    *relayer,
                    messages.take(it.index()),
                ),
                *dispatch,
            ),
    {
        let ghost i = it.index();
        let ghost between = *dispatch;
        let accepted = lane.receive_message::<S, Fee, Dispatch>(
            store,
            dispatch,
            relayer.duplicate(),
            message.key.nonce,
            message.data,
        );
        proof {
            let received = messages.take(i + 1);
            assert(received.drop_last() =~= messages.take(i));
            assert(nonces_of(received).drop_last() =~= nonces_of(messages.take(i)));
            let earlier = contents.accepted(
                lane_id,
                max_unconfirmed_messages,
                *relayer,
                messages.take(i),
            );
            let now = contents.accepted(lane_id, max_unconfirmed_messages, *relayer, received);
            if accepted {
                assert(now.drop_last() =~= earlier);
                assert(Dispatch::dispatches(between, now.last(), *dispatch));
            } else {
                assert(now == earlier);
            }
        }
    }
    assert(messages.take(messages.len() as int) =~= messages);
}

/// Takes in what a proof holds of the lanes, lane by lane.
pub fn receive_lanes<S: Store, Fee, Dispatch: MessageDispatch<Fee>>(
    store: &mut S,
    dispatch: &mut Dispatch,
    max_unconfirmed_messages: MessageNonce,
    relayer: &S::Relayer,
    lanes: Vec<(LaneId, ProvedLaneMessages<DispatchMessage<Dispatch::DispatchPayload, Fee>>)>,
) where S::Relayer: Parameter
    ensures
        final(store).contents() == old(store).contents().after_lanes(
            max_unconfirmed_messages,
            *relayer,
            lanes@,
        ),
        dispatched::<Fee, Dispatch>(
            *old(dispatch),
            old(store).contents().accepted_of_lanes(max_unconfirmed_messages, *relayer, lanes@),
            *final(dispatch),
        ),
{
    let ghost contents = store.contents();
    let ghost all = lanes@;
    let ghost first_dispatch = *dispatch;
    for lane in it: lanes
        invariant
            it.seq() == all,
            store.contents() == contents.after_lanes(
                max_unconfirmed_messages,
                *relayer,
                all.take(it.index()),
            ),
            dispatched::<Fee, Dispatch>(
                first_dispatch,
                contents.accepted_of_lanes(
                    max_unconfirmed_messages,
                    *relayer,
                    all.take(it.index()),
                ),
                *dispatch,
            ),
    {
        let ghost i = it.index();
        let ghost between = *dispatch;
        let ghost reached = store.contents();
        let (lane_id, lane_data) = lane;
        receive_lane::<S, Fee, Dispatch>(
            store,
            dispatch,
            max_unconfirmed_messages,
            relayer,
            lane_id,
            lane_data,
        );
        proof {
            assert(all.take(i + 1).drop_last() =~= all.take(i));
            dispatches_add_up::<Fee, Dispatch>(
                first_dispatch,
                contents.accepted_of_lanes(max_unconfirmed_messages, *relayer, all.take(i)),
                between,
                reached.after_lane_state(lane_id, lane_data.lane_state).accepted(
                    lane_id,
                    max_unconfirmed_messages,
                    *relayer,
                    lane_data.messages@,
                ),
                *dispatch,
            );
        }
    }
    assert(all.take(all.len() as int) =~= all);
}

} // verus!
