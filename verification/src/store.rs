//! The storage of the module: what it holds and how it is read and written.
use crate::primitives::{
    InboundLaneData, InboundLaneState, LaneId, MessageContents, MessageData, MessageKey,
    MessageNonce, OutboundLaneData, Parameter,
};
use std::collections::BTreeMap;
use vstd::prelude::*;

verus! {

/// What the storage of the module holds.
#[verifier::ext_equal]
pub struct StoreContents<RelayerId, Fee> {
    /// Inbound lanes that have been written.
    pub inbound_lanes: Map<LaneId, InboundLaneState<RelayerId>>,
    /// Outbound lanes that have been written.
    pub outbound_lanes: Map<LaneId, OutboundLaneData>,
    /// All queued outbound messages.
    pub outbound_messages: Map<MessageKey, MessageContents<Fee>>,
}

impl<RelayerId, Fee> StoreContents<RelayerId, Fee> {
    /// The storage before anything has been written.
    pub open spec fn empty() -> Self {
        StoreContents {
            inbound_lanes: Map::empty(),
            outbound_lanes: Map::empty(),
            outbound_messages: Map::empty(),
        }
    }

    /// Inbound lane; one that has never been written is in its initial state.
    pub open spec fn inbound_lane(self, lane_id: LaneId) -> InboundLaneState<RelayerId> {
        if self.inbound_lanes.contains_key(lane_id) {
            self.inbound_lanes[lane_id]
        } else {
            InboundLaneState::initial()
        }
    }

    /// Outbound lane; one that has never been written is in its initial state.
    pub open spec fn outbound_lane(self, lane_id: LaneId) -> OutboundLaneData {
        if self.outbound_lanes.contains_key(lane_id) {
            self.outbound_lanes[lane_id]
        } else {
            OutboundLaneData::initial()
        }
    }

    /// Queued outbound message.
    pub open spec fn outbound_message(self, key: MessageKey) -> Option<MessageContents<Fee>> {
        if self.outbound_messages.contains_key(key) {
            Some(self.outbound_messages[key])
        } else {
            None
        }
    }

    /// The same storage with the inbound lane written.
    pub open spec fn with_inbound_lane(
        self,
        lane_id: LaneId,
        state: InboundLaneState<RelayerId>,
    ) -> Self {
        StoreContents { inbound_lanes: self.inbound_lanes.insert(lane_id, state), ..self }
    }

    /// The same storage with the outbound lane written.
    pub open spec fn with_outbound_lane(self, lane_id: LaneId, data: OutboundLaneData) -> Self {
        StoreContents { outbound_lanes: self.outbound_lanes.insert(lane_id, data), ..self }
    }

    /// The same storage with the message queued.
    pub open spec fn with_message(self, key: MessageKey, message: MessageContents<Fee>) -> Self {
        StoreContents { outbound_messages: self.outbound_messages.insert(key, message), ..self }
    }

    /// The same storage without the message.
    pub open spec fn without_message(self, key: MessageKey) -> Self {
        StoreContents { outbound_messages: self.outbound_messages.remove(key), ..self }
    }
}

/// Storage of the module.
///
/// While a call of the module runs, nothing but the module writes it: neither a service that the
/// module calls nor the dispatch of a message changes the contents.
pub trait Store: Sized {
    /// Identifier of relayers that deliver messages to this chain.
    type Relayer;

    /// Message fee type of outbound messages.
    type Fee;

    /// What the storage holds.
    spec fn contents(&self) -> StoreContents<Self::Relayer, Self::Fee>;

    /// Reads the inbound lane.
    fn inbound_lane(&self, lane_id: LaneId) -> (data: InboundLaneData<Self::Relayer>)
        ensures
            data@ == self.contents().inbound_lane(lane_id),
    ;

    /// Writes the inbound lane.
    fn set_inbound_lane(&mut self, lane_id: LaneId, data: InboundLaneData<Self::Relayer>)
        ensures
            final(self).contents() == old(self).contents().with_inbound_lane(lane_id, data@),
    ;

    /// Reads the outbound lane.
    fn outbound_lane(&self, lane_id: LaneId) -> (data: OutboundLaneData)
        ensures
            data == self.contents().outbound_lane(lane_id),
    ;

    /// Writes the outbound lane.
    fn set_outbound_lane(&mut self, lane_id: LaneId, data: OutboundLaneData)
        ensures
            final(self).contents() == old(self).contents().with_outbound_lane(lane_id, data),
    ;

    /// Reads the message from the queue.
    fn outbound_message(&self, key: MessageKey) -> (message: Option<MessageData<Self::Fee>>)
        ensures
            match message {
                Some(data) => self.contents().outbound_message(key) == Some(data@),
                None => self.contents().outbound_message(key) is None,
            },
    ;

    /// Puts the message into the queue.
    fn insert_outbound_message(&mut self, key: MessageKey, message: MessageData<Self::Fee>)
        ensures
            final(self).contents() == old(self).contents().with_message(key, message@),
    ;

    /// Takes the message out of the queue.
    fn remove_outbound_message(&mut self, key: MessageKey)
        ensures
            final(self).contents() == old(self).contents().without_message(key),
    ;
}

/// Storage that is kept in memory.
#[derive(Clone, PartialEq, Debug)]
pub struct MemoryStore<RelayerId, Fee> {
    inbound_lanes: BTreeMap<LaneId, InboundLaneData<RelayerId>>,
    outbound_lanes: BTreeMap<LaneId, OutboundLaneData>,
    outbound_messages: BTreeMap<(LaneId, MessageNonce), MessageData<Fee>>,
}

impl<RelayerId: Parameter, Fee: Parameter> MemoryStore<RelayerId, Fee> {
    /// Creates an empty storage.
    pub fn new() -> (store: Self)
        ensures
            store.contents() == StoreContents::<RelayerId, Fee>::empty(),
    {
        let store = MemoryStore {
            inbound_lanes: BTreeMap::new(),
            outbound_lanes: BTreeMap::new(),
            outbound_messages: BTreeMap::new(),
        };
        assert(store.contents() =~= StoreContents::<RelayerId, Fee>::empty());
        store
    }
}

impl<RelayerId: Parameter, Fee: Parameter> Store for MemoryStore<RelayerId, Fee> {
    type Relayer = RelayerId;

    type Fee = Fee;

    closed spec fn contents(&self) -> StoreContents<RelayerId, Fee> {
        StoreContents {
            inbound_lanes: self.inbound_lanes@.map_values(
                |data: InboundLaneData<RelayerId>| data@,
            ),
            outbound_lanes: self.outbound_lanes@,
            outbound_messages: Map::new(
                |key: MessageKey| self.outbound_messages@.contains_key((key.lane_id, key.nonce)),
                |key: MessageKey| self.outbound_messages@[(key.lane_id, key.nonce)]@,
            ),
        }
    }

    fn inbound_lane(&self, lane_id: LaneId) -> (data: InboundLaneData<RelayerId>) {
        match self.inbound_lanes.get(&lane_id) {
            Some(data) => data.duplicate(),
            None => InboundLaneData::default(),
        }
    }

    fn set_inbound_lane(&mut self, lane_id: LaneId, data: InboundLaneData<RelayerId>) {
        let ghost written = self.contents().with_inbound_lane(lane_id, data@);
        self.inbound_lanes.insert(lane_id, data);
        assert(self.contents() =~= written);
    }

    fn outbound_lane(&self, lane_id: LaneId) -> (data: OutboundLaneData) {
        match self.outbound_lanes.get(&lane_id) {
            Some(data) => *data,
            None => OutboundLaneData::default(),
        }
    }

    fn set_outbound_lane(&mut self, lane_id: LaneId, data: OutboundLaneData) {
        let ghost written = self.contents().with_outbound_lane(lane_id, data);
        self.outbound_lanes.insert(lane_id, data);
        assert(self.contents() =~= written);
    }

    fn outbound_message(&self, key: MessageKey) -> (message: Option<MessageData<Fee>>) {
        match self.outbound_messages.get(&(key.lane_id, key.nonce)) {
            Some(message) => Some(message.duplicate()),
            None => None,
        }
    }

    fn insert_outbound_message(&mut self, key: MessageKey, message: MessageData<Fee>) {
        let ghost written = self.contents().with_message(key, message@);
        self.outbound_messages.insert((key.lane_id, key.nonce), message);
        assert(self.contents() =~= written);
    }

    fn remove_outbound_message(&mut self, key: MessageKey) {
        let ghost written = self.contents().without_message(key);
        self.outbound_messages.remove(&(key.lane_id, key.nonce));
        assert(self.contents() =~= written);
    }
}

} // verus!
