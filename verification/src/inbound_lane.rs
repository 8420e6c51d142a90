//! Everything about incoming messages receival.
use crate::codec::{DispatchMessage, DispatchMessageData};
use crate::config::MessageDispatch;
use crate::primitives::{
    InboundLaneState, LaneId, MessageKey, MessageNonce, OutboundLaneData, Parameter,
};
use crate::runtime_storage::RuntimeInboundLaneStorage;
use crate::store::{Store, StoreContents};
use vstd::prelude::*;

verus! {

/// Entries of the relayers that still wait for a confirmation once all messages up to the nonce
/// have been confirmed. An entry with confirmed and unconfirmed messages keeps the latter.
pub open spec fn unconfirmed_entries<RelayerId>(
    relayers: Seq<(MessageNonce, MessageNonce, RelayerId)>,
    latest_confirmed_nonce: MessageNonce,
) -> Seq<(MessageNonce, MessageNonce, RelayerId)>
    decreases relayers.len(),
{
    if relayers.len() == 0 {
        relayers
    } else if relayers[0].1 <= latest_confirmed_nonce {
        unconfirmed_entries(relayers.drop_first(), latest_confirmed_nonce)
    } else if relayers[0].0 <= latest_confirmed_nonce {
        relayers.update(
            0,
            ((latest_confirmed_nonce + 1) as MessageNonce, relayers[0].1, relayers[0].2),
        )
    } else {
        relayers
    }
}

/// The entry and the next one adjoin: there is no gap between them, and two relayers have made
/// them.
pub open spec fn adjoining<RelayerId>(
    relayers: Seq<(MessageNonce, MessageNonce, RelayerId)>,
    i: int,
) -> bool {
    &&& relayers[i].1 + 1 == relayers[i + 1].0
    &&& relayers[i].2 != relayers[i + 1].2
}

impl<RelayerId> InboundLaneState<RelayerId> {
    /// The entries of the relayers cover the messages that have been received and not been
    /// confirmed, each message once, in the order of the nonces.
    pub open spec fn well_formed(self) -> bool {
        &&& self.latest_confirmed_nonce <= self.latest_received_nonce
        &&& self.relayers.len() == 0 <==> self.latest_confirmed_nonce == self.latest_received_nonce
        &&& self.relayers.len() > 0 ==> {
            &&& self.relayers.first().0 == self.latest_confirmed_nonce + 1
            &&& self.relayers.last().1 == self.latest_received_nonce
        }
        &&& forall|i: int|
            0 <= i < self.relayers.len() ==> (#[trigger] self.relayers[i]).0 <= self.relayers[i].1
        &&& forall|i: int|
            0 <= i < self.relayers.len() - 1 ==> #[trigger] adjoining(self.relayers, i)
    }

    /// Tells whether a confirmation of all messages up to the nonce is news for the lane.
    pub open spec fn can_confirm(self, latest_confirmed_nonce: MessageNonce) -> bool {
        self.latest_confirmed_nonce < latest_confirmed_nonce <= self.latest_received_nonce
    }

    /// The lane after all messages up to the nonce have been confirmed.
    pub open spec fn confirmed(self, latest_confirmed_nonce: MessageNonce) -> Self {
        InboundLaneState {
            relayers: unconfirmed_entries(self.relayers, latest_confirmed_nonce),
            latest_confirmed_nonce,
            ..self
        }
    }

    /// Tells whether a message of the relayer is accepted: it has to be the next one, and the
    /// entries must not become more than may be unconfirmed.
    pub open spec fn accepts(
        self,
        max_unconfirmed_messages: MessageNonce,
        relayer: RelayerId,
        nonce: MessageNonce,
    ) -> bool {
        &&& nonce == self.latest_received_nonce + 1
        &&& self.with_delivery(relayer, nonce).relayers.len() <= max_unconfirmed_messages
    }

    /// The lane after the relayer has delivered the next message: a relayer that has delivered
    /// the message before it too keeps its entry, another one gets an entry of its own.
    pub open spec fn with_delivery(self, relayer: RelayerId, nonce: MessageNonce) -> Self {
        let relayers = if self.relayers.len() > 0 && self.relayers.last().2 == relayer {
            self.relayers.update(
                self.relayers.len() - 1,
                (self.relayers.last().0, nonce, relayer),
            )
        } else {
            self.relayers.push((nonce, nonce, relayer))
        };
        InboundLaneState { relayers, latest_received_nonce: nonce, ..self }
    }
}

impl<RelayerId, Fee> StoreContents<RelayerId, Fee> {
    /// What always holds of the inbound part of the storage.
    pub open spec fn inbound_valid(self) -> bool {
        forall|lane_id: LaneId| (#[trigger] self.inbound_lane(lane_id)).well_formed()
    }

    /// No inbound lane has more entries than may be unconfirmed.
    pub open spec fn within_limit(self, max_unconfirmed_messages: MessageNonce) -> bool {
        forall|lane_id: LaneId|
            (#[trigger] self.inbound_lane(lane_id)).relayers.len() <= max_unconfirmed_messages
    }

    /// The storage after the state of the outbound lane at the bridged chain has come in.
    pub open spec fn after_state_update(self, lane_id: LaneId, outbound: OutboundLaneData) -> Self {
        if self.inbound_lane(lane_id).can_confirm(outbound.latest_received_nonce) {
            self.with_inbound_lane(
                lane_id,
                self.inbound_lane(lane_id).confirmed(outbound.latest_received_nonce),
            )
        } else {
            self
        }
    }

    /// The storage after the message has come in.
    pub open spec fn after_message(
        self,
        lane_id: LaneId,
        max_unconfirmed_messages: MessageNonce,
        relayer: RelayerId,
        nonce: MessageNonce,
    ) -> Self {
        if self.inbound_lane(lane_id).accepts(max_unconfirmed_messages, relayer, nonce) {
            self.with_inbound_lane(
                lane_id,
                self.inbound_lane(lane_id).with_delivery(relayer, nonce),
            )
        } else {
            self
        }
    }
}

impl<RelayerId, Fee> StoreContents<RelayerId, Fee> {
    /// The storage after messages with these nonces have come in, one after the other.
    pub open spec fn after_deliveries(
        self,
        lane_id: LaneId,
        max_unconfirmed_messages: MessageNonce,
        relayer: RelayerId,
        nonces: Seq<MessageNonce>,
    ) -> Self
        decreases nonces.len(),
    {
        if nonces.len() == 0 {
            self
        } else {
            self.after_deliveries(
                lane_id,
                max_unconfirmed_messages,
                relayer,
                nonces.drop_last(),
            ).after_message(lane_id, max_unconfirmed_messages, relayer, nonces.last())
        }
    }

    /// Those of the messages that are accepted when they come in one after the other, as they
    /// are dispatched.
    pub open spec fn accepted<Payload, InboundFee>(
        self,
        lane_id: LaneId,
        max_unconfirmed_messages: MessageNonce,
        relayer: RelayerId,
        messages: Seq<DispatchMessage<Payload, InboundFee>>,
    ) -> Seq<DispatchMessage<Payload, InboundFee>>
        decreases messages.len(),
    {
        if messages.len() == 0 {
            messages
        } else {
            let earlier = messages.drop_last();
            let message = messages.last();
            let accepted = self.accepted(lane_id, max_unconfirmed_messages, relayer, earlier);
            let lane = self.after_deliveries(
                lane_id,
                max_unconfirmed_messages,
                relayer,
                nonces_of(earlier),
            ).inbound_lane(lane_id);
            if lane.accepts(max_unconfirmed_messages, relayer, message.key.nonce) {
                accepted.push(
                    DispatchMessage {
                        key: MessageKey { lane_id, nonce: message.key.nonce },
                        data: message.data,
                    },
                )
            } else {
                accepted
            }
        }
    }
}

/// Nonces of the messages.
pub open spec fn nonces_of<Payload, Fee>(messages: Seq<DispatchMessage<Payload, Fee>>) -> Seq<
    MessageNonce,
> {
    Seq::new(messages.len(), |i: int| messages[i].key.nonce)
}

/// Inbound messages lane.
pub struct InboundLane<RelayerId> {
    /// Storage of the lane.
    pub storage: RuntimeInboundLaneStorage<RelayerId>,
}

impl<RelayerId: Parameter> InboundLane<RelayerId> {
    /// Creates an inbound lane on top of the given storage.
    pub fn new(storage: RuntimeInboundLaneStorage<RelayerId>) -> (lane: Self)
        ensures
            lane.storage == storage,
    {
        InboundLane { storage }
    }

    /// Receives the state of the corresponding outbound lane. Gives the nonce up to which all
    /// messages have been confirmed by it, or `None` if it brings no news for what is known of the
    /// lane.
    pub fn receive_state_update<S: Store<Relayer = RelayerId>>(
        &mut self,
        store: &mut S,
        outbound_lane_data: OutboundLaneData,
    ) -> (updated_latest_confirmed_nonce: Option<MessageNonce>)
        ensures
            ({
                let nonce = outbound_lane_data.latest_received_nonce;
                let lane = old(self).storage.known_data(old(store).contents());
                if lane.can_confirm(nonce) {
                    &&& updated_latest_confirmed_nonce == Some(nonce)
                    &&& final(store).contents() == old(store).contents().with_inbound_lane(
                        old(self).storage.lane_id,
                        lane.confirmed(nonce),
                    )
                    &&& final(self).storage.keeps(lane.confirmed(nonce))
                } else {
                    &&& updated_latest_confirmed_nonce is None
                    &&& final(store).contents() == old(store).contents()
                    &&& final(self).storage.keeps(lane)
                }
            }),
            final(self).storage.same_lane(old(self).storage),
            ({
                let lane = old(self).storage.known_data(old(store).contents());
                updated_latest_confirmed_nonce is Some <==> lane.latest_confirmed_nonce
                    < outbound_lane_data.latest_received_nonce <= lane.latest_received_nonce
            }),
    {
        let mut data = self.storage.data(store);
        let latest_confirmed_nonce: MessageNonce = outbound_lane_data.latest_received_nonce;
        if latest_confirmed_nonce > data.latest_received_nonce {
            // the messages have not been received yet: a valid proof never says so
            return None;
        }
        if latest_confirmed_nonce <= data.latest_confirmed_nonce {
            return None;
        }
        let ghost state = data@;
        data.latest_confirmed_nonce = latest_confirmed_nonce;
        // firstly, drop the entries that have been confirmed as a whole
        while data.relayers.len() > 0 && data.relayers[0].1 <= latest_confirmed_nonce
            invariant
                data.latest_confirmed_nonce == latest_confirmed_nonce,
                data.latest_received_nonce == state.latest_received_nonce,
                unconfirmed_entries(data.relayers@, latest_confirmed_nonce) == unconfirmed_entries(
                    state.relayers,
                    latest_confirmed_nonce,
                ),
            decreases data.relayers@.len(),
        {
            let _ = data.relayers.pop_front();
        }
        // secondly, cut the confirmed messages off the entry that is left in front
        if data.relayers.len() > 0 && data.relayers[0].0 <= latest_confirmed_nonce {
            let ghost before = data.relayers@;
            if let Some((_, nonce_high, relayer)) = data.relayers.pop_front() {
                data.relayers.push_front((latest_confirmed_nonce + 1, nonce_high, relayer));
            }
            assert(data.relayers@ =~= unconfirmed_entries(before, latest_confirmed_nonce));
        }
        self.storage.set_data(store, data);
        Some(latest_confirmed_nonce)
    }

    /// Receives a message and dispatches it. Tells whether the message has been accepted, going
    /// by what is known of the lane; one that has not changes neither the storage nor the
    /// dispatch.
    pub fn receive_message<
        S: Store<Relayer = RelayerId>,
        Fee,
        Dispatch: MessageDispatch<Fee>,
    >(
        &mut self,
        store: &mut S,
        dispatch: &mut Dispatch,
        relayer: RelayerId,
        nonce: MessageNonce,
        message_data: DispatchMessageData<Dispatch::DispatchPayload, Fee>,
    ) -> (accepted: bool)
        ensures
            ({
                let lane = old(self).storage.known_data(old(store).contents());
                &&& accepted == lane.accepts(
                    old(self).storage.max_unconfirmed_messages,
                    relayer,
                    nonce,
                )
                &&& if accepted {
                    &&& final(store).contents() == old(store).contents().with_inbound_lane(
                        old(self).storage.lane_id,
                        lane.with_delivery(relayer, nonce),
                    )
                    &&& final(self).storage.keeps(lane.with_delivery(relayer, nonce))
                } else {
                    &&& final(store).contents() == old(store).contents()
                    &&& final(self).storage.keeps(lane)
                }
            }),
            accepted ==> Dispatch::dispatches(
                *old(dispatch),
                (DispatchMessage {
                    key: MessageKey { lane_id: old(self).storage.lane_id, nonce },
                    data: message_data,
                }),
                *final(dispatch),
            ),
            !accepted ==> *final(dispatch) == *old(dispatch),
            final(self).storage.same_lane(old(self).storage),
            ({
                let lane = old(self).storage.known_data(old(store).contents());
                let is_same = lane.relayers.len() > 0 && lane.relayers[lane.relayers.len() - 1].2
                    == relayer;
                let limit = old(self).storage.max_unconfirmed_messages;
                accepted <==> nonce == lane.latest_received_nonce + 1 && if is_same {
                    lane.relayers.len() <= limit
                } else {
                    lane.relayers.len() < limit
                }
            }),
    {
        let mut data = self.storage.data(store);
        let is_next_message = data.latest_received_nonce < MessageNonce::MAX && nonce
            == data.latest_received_nonce + 1;
        if !is_next_message {
            return false;
        }
        let ghost state = data@;
        let entries: usize = data.relayers.len();
        let same_relayer = entries > 0 && data.relayers[entries - 1].2.same(&relayer);
        // if there would be more unconfirmed messages than we may accept, reject this message
        let max_unconfirmed_messages: MessageNonce = self.storage.max_unconfirmed_messages();
        let has_room = if same_relayer {
            entries as MessageNonce <= max_unconfirmed_messages
        } else {
            (entries as MessageNonce) < max_unconfirmed_messages
        };
        if !has_room {
            return false;
        }
        data.latest_received_nonce = nonce;
        if same_relayer {
            if let Some((nonce_low, _, relayer)) = data.relayers.pop_back() {
                data.relayers.push_back((nonce_low, nonce, relayer));
            }
        } else {
            data.relayers.push_back((nonce, nonce, relayer));
        }
        assert(data@ =~= state.with_delivery(relayer, nonce));
        self.storage.set_data(store, data);

        let lane_id: LaneId = self.storage.id();
        dispatch.dispatch(DispatchMessage { key: MessageKey { lane_id, nonce }, data: message_data });
        true
    }
}

} // verus!
