//! Single lanes of the module's storage.
use crate::primitives::{
    InboundLaneData, InboundLaneState, LaneId, MessageData, MessageKey, MessageNonce,
    OutboundLaneData, Parameter,
};
use crate::store::{Store, StoreContents};
use vstd::prelude::*;

verus! {

/// Runtime inbound lane storage. What has once been read from the storage is kept.
pub struct RuntimeInboundLaneStorage<RelayerId> {
    /// Identifier of the lane.
    pub lane_id: LaneId,
    /// Maximal number of unconfirmed "messages" at the lane.
    pub max_unconfirmed_messages: MessageNonce,
    /// Data of the lane, if it has been read or written already.
    pub cached_data: Option<InboundLaneData<RelayerId>>,
}

impl<RelayerId: Parameter> RuntimeInboundLaneStorage<RelayerId> {
    /// What is kept of the lane is what the storage holds of it.
    pub open spec fn in_step_with<Fee>(self, contents: StoreContents<RelayerId, Fee>) -> bool {
        self.cached_data matches Some(data) ==> data@ == contents.inbound_lane(self.lane_id)
    }

    /// This is kept of the lane.
    pub open spec fn keeps(self, data: InboundLaneState<RelayerId>) -> bool {
        self.cached_data matches Some(kept) && kept@ == data
    }

    /// What is known of the lane: what is kept of it, whatever the storage holds by now, and
    /// what the storage holds as long as nothing is kept.
    pub open spec fn known_data<Fee>(
        self,
        contents: StoreContents<RelayerId, Fee>,
    ) -> InboundLaneState<RelayerId> {
        match self.cached_data {
            Some(kept) => kept@,
            None => contents.inbound_lane(self.lane_id),
        }
    }

    /// It is the same lane with the same limit.
    pub open spec fn same_lane(self, other: Self) -> bool {
        &&& self.lane_id == other.lane_id
        &&& self.max_unconfirmed_messages == other.max_unconfirmed_messages
    }

    /// Lane id.
    pub fn id(&self) -> (lane_id: LaneId)
        ensures
            lane_id == self.lane_id,
    {
        self.lane_id
    }

    /// Maximal number of unconfirmed "messages" at the lane.
    pub fn max_unconfirmed_messages(&self) -> (limit: MessageNonce)
        ensures
            limit == self.max_unconfirmed_messages,
    {
        self.max_unconfirmed_messages
    }

    /// Gives the lane data. The storage is read at the first call only: what that call gave
    /// is given again, also if the storage has been changed by others in between.
    pub fn data<S: Store<Relayer = RelayerId>>(&mut self, store: &S) -> (data: InboundLaneData<
        RelayerId,
    >)
        ensures
            data@ == old(self).known_data(store.contents()),
            final(self).same_lane(*old(self)),
            final(self).keeps(data@),
    {
        match &self.cached_data {
            Some(data) => data.duplicate(),
            None => {
                let data = store.inbound_lane(self.lane_id);
                self.cached_data = Some(data.duplicate());
                data
            },
        }
    }

    /// Updates the lane data in the storage.
    pub fn set_data<S: Store<Relayer = RelayerId>>(
        &mut self,
        store: &mut S,
        data: InboundLaneData<RelayerId>,
    )
        ensures
            final(store).contents() == old(store).contents().with_inbound_lane(
                old(self).lane_id,
                data@,
            ),
            final(self).same_lane(*old(self)),
            final(self).in_step_with(final(store).contents()),
            final(self).keeps(data@),
    {
        self.cached_data = Some(data.duplicate());
        store.set_inbound_lane(self.lane_id, data);
    }
}

/// Runtime outbound lane storage.
#[derive(Clone, Copy)]
pub struct RuntimeOutboundLaneStorage {
    /// Identifier of the lane.
    pub lane_id: LaneId,
}

impl RuntimeOutboundLaneStorage {
    /// Key of the message of the lane.
    pub open spec fn key(self, nonce: MessageNonce) -> MessageKey {
        MessageKey { lane_id: self.lane_id, nonce }
    }

    /// Lane id.
    pub fn id(&self) -> (lane_id: LaneId)
        ensures
            lane_id == self.lane_id,
    {
        self.lane_id
    }

    /// Gives the lane data.
    pub fn data<S: Store>(&self, store: &S) -> (data: OutboundLaneData)
        ensures
            data == store.contents().outbound_lane(self.lane_id),
    {
        store.outbound_lane(self.lane_id)
    }

    /// Updates the lane data in the storage.
    pub fn set_data<S: Store>(&self, store: &mut S, data: OutboundLaneData)
        ensures
            final(store).contents() == old(store).contents().with_outbound_lane(self.lane_id, data),
    {
        store.set_outbound_lane(self.lane_id, data)
    }

    /// Gives the message that is queued at the lane under the nonce.
    pub fn message<S: Store>(&self, store: &S, nonce: &MessageNonce) -> (message: Option<
        MessageData<S::Fee>,
    >)
        ensures
            match message {
                Some(data) => store.contents().outbound_message(self.key(*nonce)) == Some(data@),
                None => store.contents().outbound_message(self.key(*nonce)) is None,
            },
    {
        store.outbound_message(MessageKey { lane_id: self.lane_id, nonce: *nonce })
    }

    /// Queues the message at the lane under the nonce.
    pub fn save_message<S: Store>(
        &self,
        store: &mut S,
        nonce: MessageNonce,
        message_data: MessageData<S::Fee>,
    )
        ensures
            final(store).contents() == old(store).contents().with_message(
                self.key(nonce),
                message_data@,
            ),
    {
        store.insert_outbound_message(
            MessageKey { lane_id: self.lane_id, nonce },
            message_data,
        );
    }

    /// Removes the message that is queued at the lane under the nonce.
    pub fn remove_message<S: Store>(&self, store: &mut S, nonce: &MessageNonce)
        ensures
            final(store).contents() == old(store).contents().without_message(self.key(*nonce)),
    {
        store.remove_outbound_message(MessageKey { lane_id: self.lane_id, nonce: *nonce });
    }
}

} // verus!
