//! Everything about outgoing messages sending.
use crate::primitives::{
    LaneId, MessageContents, MessageData, MessageKey, MessageNonce, OutboundLaneData,
};
use crate::runtime_storage::RuntimeOutboundLaneStorage;
use crate::store::{Store, StoreContents};
use vstd::prelude::*;

verus! {

impl OutboundLaneData {
    /// Tells whether the receival of all messages up to the nonce is news for the lane.
    pub open spec fn can_confirm(self, latest_received_nonce: MessageNonce) -> bool {
        self.latest_received_nonce < latest_received_nonce <= self.latest_generated_nonce
    }

    /// Number of messages that may be pruned when at most `max_messages_to_prune` may. The message
    /// with the greatest nonce of all stays: no nonce is left for the message after it.
    pub open spec fn prunable(self, max_messages_to_prune: MessageNonce) -> int {
        let latest_prunable_nonce = if self.latest_received_nonce < MessageNonce::MAX {
            self.latest_received_nonce as int
        } else {
            MessageNonce::MAX - 1
        };
        let received_unpruned = latest_prunable_nonce + 1 - self.oldest_unpruned_nonce;
        if received_unpruned <= 0 {
            0
        } else if received_unpruned <= max_messages_to_prune {
            received_unpruned
        } else {
            max_messages_to_prune as int
        }
    }
}

impl<RelayerId, Fee> StoreContents<RelayerId, Fee> {
    /// The nonces of the lane are in order: what has been pruned has been received, and what has
    /// been received has been generated.
    pub open spec fn outbound_nonces_ordered(self, lane_id: LaneId) -> bool {
        let lane = self.outbound_lane(lane_id);
        &&& 1 <= lane.oldest_unpruned_nonce <= lane.latest_received_nonce + 1
        &&& lane.latest_received_nonce <= lane.latest_generated_nonce
    }

    /// The queue holds the messages that have been generated and not been pruned, and no others.
    pub open spec fn queue_matches_lanes(self) -> bool {
        forall|key: MessageKey| #[trigger]
            self.outbound_messages.contains_key(key) <==> {
                &&& self.outbound_lane(key.lane_id).oldest_unpruned_nonce <= key.nonce
                &&& key.nonce <= self.outbound_lane(key.lane_id).latest_generated_nonce
            }
    }

    /// What always holds of the outbound part of the storage.
    pub open spec fn outbound_valid(self) -> bool {
        &&& forall|lane_id: LaneId| #[trigger] self.outbound_nonces_ordered(lane_id)
        &&& self.queue_matches_lanes()
    }

    /// All messages that wait for a confirmation are queued.
    pub open spec fn unconfirmed_queued(self) -> bool {
        forall|key: MessageKey|
            self.outbound_lane(key.lane_id).latest_received_nonce < key.nonce
                <= self.outbound_lane(key.lane_id).latest_generated_nonce ==> #[trigger]
            self.outbound_messages.contains_key(key)
    }

    /// The nonce that the next message of the lane gets.
    pub open spec fn next_nonce(self, lane_id: LaneId) -> int {
        self.outbound_lane(lane_id).latest_generated_nonce + 1
    }

    /// The storage after the message has been sent over the lane.
    pub open spec fn after_send(self, lane_id: LaneId, message: MessageContents<Fee>) -> Self {
        let nonce = self.next_nonce(lane_id) as MessageNonce;
        self.with_message(MessageKey { lane_id, nonce }, message).with_outbound_lane(
            lane_id,
            OutboundLaneData { latest_generated_nonce: nonce, ..self.outbound_lane(lane_id) },
        )
    }

    /// The storage after the receival of all messages up to the nonce has been reported.
    pub open spec fn after_confirmation(
        self,
        lane_id: LaneId,
        latest_received_nonce: MessageNonce,
    ) -> Self {
        if self.outbound_lane(lane_id).can_confirm(latest_received_nonce) {
            self.with_outbound_lane(
                lane_id,
                OutboundLaneData { latest_received_nonce, ..self.outbound_lane(lane_id) },
            )
        } else {
            self
        }
    }

    /// The storage after the receival of all messages up to the nonce has been reported and, if
    /// that was news, the lane has been pruned.
    pub open spec fn after_delivery_report(
        self,
        lane_id: LaneId,
        latest_received_nonce: MessageNonce,
        max_messages_to_prune: MessageNonce,
    ) -> Self {
        if self.outbound_lane(lane_id).can_confirm(latest_received_nonce) {
            self.after_confirmation(lane_id, latest_received_nonce).after_prune(
                lane_id,
                max_messages_to_prune,
            )
        } else {
            self
        }
    }

    /// Keys of the `count` oldest messages of the lane that have not been pruned.
    pub open spec fn oldest_keys(self, lane_id: LaneId, count: int) -> Set<MessageKey> {
        Set::new(
            |key: MessageKey|
                {
                    &&& key.lane_id == lane_id
                    &&& self.outbound_lane(lane_id).oldest_unpruned_nonce <= key.nonce
                    &&& key.nonce < self.outbound_lane(lane_id).oldest_unpruned_nonce + count
                },
        )
    }

    /// The storage after the `count` oldest messages of the lane have been pruned.
    pub open spec fn without_oldest(self, lane_id: LaneId, count: int) -> Self {
        let lane = self.outbound_lane(lane_id);
        if count == 0 {
            self
        } else {
            StoreContents {
                outbound_messages: self.outbound_messages.remove_keys(
                    self.oldest_keys(lane_id, count),
                ),
                ..self.with_outbound_lane(
                    lane_id,
                    OutboundLaneData {
                        oldest_unpruned_nonce: (lane.oldest_unpruned_nonce + count) as MessageNonce,
                        ..lane
                    },
                )
            }
        }
    }

    /// The storage after at most `max_messages_to_prune` received messages of the lane have been
    /// pruned.
    pub open spec fn after_prune(self, lane_id: LaneId, max_messages_to_prune: MessageNonce) -> Self {
        self.without_oldest(
            lane_id,
            self.outbound_lane(lane_id).prunable(max_messages_to_prune),
        )
    }
}

/// Outbound messages lane.
#[derive(Clone, Copy)]
pub struct OutboundLane {
    /// Storage of the lane.
    pub storage: RuntimeOutboundLaneStorage,
}

impl OutboundLane {
    /// Creates an outbound lane on top of the given storage.
    pub fn new(storage: RuntimeOutboundLaneStorage) -> (lane: Self)
        ensures
            lane.storage == storage,
    {
        OutboundLane { storage }
    }

    /// Sends the message over the lane and gives its nonce.
    pub fn send_message<S: Store>(&self, store: &mut S, message_data: MessageData<S::Fee>) -> (nonce:
        MessageNonce)
        requires
            old(store).contents().next_nonce(self.storage.lane_id) <= MessageNonce::MAX,
        ensures
            nonce == old(store).contents().next_nonce(self.storage.lane_id),
            final(store).contents() == old(store).contents().after_send(
                self.storage.lane_id,
                message_data@,
            ),
            nonce == old(store).contents().outbound_lane(
                self.storage.lane_id,
            ).latest_generated_nonce + 1,
            final(store).contents().outbound_lane(self.storage.lane_id).latest_generated_nonce
                == nonce,
            final(store).contents().outbound_message(
                (MessageKey { lane_id: self.storage.lane_id, nonce }),
            ) == Some(message_data@),
    {
        let mut data = self.storage.data(store);
        let nonce: MessageNonce = data.latest_generated_nonce + 1;
        data.latest_generated_nonce = nonce;
        self.storage.save_message(store, nonce, message_data);
        self.storage.set_data(store, data);
        nonce
    }

    /// Confirms that all messages up to the nonce have been delivered. Gives the inclusive range
    /// of the nonces whose delivery has been confirmed, or `None` if the confirmation is obsolete
    /// or is of messages that have not been generated.
    pub fn confirm_delivery<S: Store>(
        &self,
        store: &mut S,
        latest_received_nonce: MessageNonce,
    ) -> (received_range: Option<(MessageNonce, MessageNonce)>)
        ensures
            received_range is Some <==> old(store).contents().outbound_lane(
                self.storage.lane_id,
            ).can_confirm(latest_received_nonce),
            received_range matches Some(range) ==> {
                &&& range.0 == old(store).contents().outbound_lane(
                    self.storage.lane_id,
                ).latest_received_nonce + 1
                &&& range.1 == latest_received_nonce
            },
            final(store).contents() == old(store).contents().after_confirmation(
                self.storage.lane_id,
                latest_received_nonce,
            ),
            received_range is None ==> *final(store) == *old(store),
            ({
                let lane = old(store).contents().outbound_lane(self.storage.lane_id);
                let is_news = lane.latest_received_nonce < latest_received_nonce
                    <= lane.latest_generated_nonce;
                &&& is_news ==> {
                    &&& received_range is Some
                    &&& final(store).contents().outbound_lane(
                        self.storage.lane_id,
                    ).latest_received_nonce == latest_received_nonce
                }
                &&& !is_news ==> received_range is None
            }),
    {
        let mut data = self.storage.data(store);
        if latest_received_nonce <= data.latest_received_nonce || latest_received_nonce
            > data.latest_generated_nonce {
            return None;
        }
        let prev_latest_received_nonce: MessageNonce = data.latest_received_nonce;
        data.latest_received_nonce = latest_received_nonce;
        self.storage.set_data(store, data);
        Some((prev_latest_received_nonce + 1, latest_received_nonce))
    }

    /// Prunes at most `max_messages_to_prune` messages that have already been received. Gives the
    /// number of pruned messages.
    pub fn prune_messages<S: Store>(
        &self,
        store: &mut S,
        max_messages_to_prune: MessageNonce,
    ) -> (pruned_messages: MessageNonce)
        ensures
            pruned_messages == old(store).contents().outbound_lane(self.storage.lane_id).prunable(
                max_messages_to_prune,
            ),
            pruned_messages == final(store).contents().outbound_lane(
                self.storage.lane_id,
            ).oldest_unpruned_nonce - old(store).contents().outbound_lane(
                self.storage.lane_id,
            ).oldest_unpruned_nonce,
            final(store).contents() == old(store).contents().after_prune(
                self.storage.lane_id,
                max_messages_to_prune,
            ),
    {
        let ghost contents = store.contents();
        let ghost lane_id = self.storage.lane_id;
        let mut data = self.storage.data(store);
        let oldest_unpruned_nonce: MessageNonce = data.oldest_unpruned_nonce;
        let mut pruned_messages: MessageNonce = 0;
        assert(contents.outbound_messages.remove_keys(contents.oldest_keys(lane_id, 0))
            =~= contents.outbound_messages);
        while pruned_messages < max_messages_to_prune && data.oldest_unpruned_nonce
            <= data.latest_received_nonce && data.oldest_unpruned_nonce < MessageNonce::MAX
            invariant
                lane_id == self.storage.lane_id,
                contents.outbound_lane(lane_id) == (OutboundLaneData {
                    oldest_unpruned_nonce,
                    ..data
                }),
                data.oldest_unpruned_nonce == oldest_unpruned_nonce + pruned_messages,
                pruned_messages <= max_messages_to_prune,
                pruned_messages > 0 ==> data.oldest_unpruned_nonce <= data.latest_received_nonce
                    + 1,
                store.contents() == (StoreContents {
                    outbound_messages: contents.outbound_messages.remove_keys(
                        contents.oldest_keys(lane_id, pruned_messages as int),
                    ),
                    ..contents
                }),
            decreases max_messages_to_prune - pruned_messages,
        {
            let ghost count = pruned_messages as int;
            self.storage.remove_message(store, &data.oldest_unpruned_nonce);
            pruned_messages += 1;
            data.oldest_unpruned_nonce += 1;
            assert(store.contents().outbound_messages =~= contents.outbound_messages.remove_keys(
                contents.oldest_keys(lane_id, count + 1),
            ));
        }
        if pruned_messages > 0 {
            self.storage.set_data(store, data);
        }
        pruned_messages
    }
}

} // verus!
