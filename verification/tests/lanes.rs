use pallet_message_lane::codec::{
    decode_message, Decode, DecodeError, DispatchMessage, DispatchMessageData, Encode,
};
use pallet_message_lane::config::MessageDispatch;
use pallet_message_lane::confirmation::outbound_lane;
use pallet_message_lane::primitives::{
    ensure_signed, DispatchError, InboundLaneData, Message, MessageData, MessageKey,
    OutboundLaneData, ProvedLaneMessages, RawOrigin, Weight,
};
use pallet_message_lane::proved_messages::{decode_proved_messages, lanes_in_order};
use pallet_message_lane::receival::inbound_lane;
use pallet_message_lane::runtime_storage::{RuntimeInboundLaneStorage, RuntimeOutboundLaneStorage};
use pallet_message_lane::store::{MemoryStore, Store};
use std::collections::BTreeMap;

const LANE: u32 = 4;

struct CountingDispatch {
    dispatched: Vec<u64>,
}

impl MessageDispatch<u64> for CountingDispatch {
    type DispatchPayload = (u64, Weight);

    fn dispatch_weight(&self, _message: &DispatchMessage<(u64, Weight), u64>) -> Weight {
        1
    }

    fn dispatch(&mut self, message: DispatchMessage<(u64, Weight), u64>) {
        self.dispatched.push(message.key.nonce);
    }
}

fn message_data(fee: u64) -> MessageData<u64> {
    MessageData { payload: vec![1, 2, 3], fee }
}

fn inbound_data(
    relayers: Vec<(u64, u64, u64)>,
    received: u64,
    confirmed: u64,
) -> InboundLaneData<u64> {
    InboundLaneData {
        relayers: relayers.into_iter().collect(),
        latest_received_nonce: received,
        latest_confirmed_nonce: confirmed,
    }
}

fn updated(data: InboundLaneData<u64>, nonce: u64) -> (Option<u64>, InboundLaneData<u64>) {
    let mut store: MemoryStore<u64, u64> = MemoryStore::new();
    store.set_inbound_lane(LANE, data);
    let mut lane = inbound_lane::<u64>(LANE, 10);
    let result = lane.receive_state_update(
        &mut store,
        OutboundLaneData { latest_received_nonce: nonce, ..Default::default() },
    );
    (result, store.inbound_lane(LANE))
}

#[test]
fn initial_lanes() {
    let store: MemoryStore<u64, u64> = MemoryStore::new();
    assert_eq!(store.inbound_lane(LANE), inbound_data(vec![], 0, 0));
    assert_eq!(
        store.outbound_lane(LANE),
        OutboundLaneData {
            oldest_unpruned_nonce: 1,
            latest_received_nonce: 0,
            latest_generated_nonce: 0,
        },
    );
    assert!(store.outbound_message(MessageKey { lane_id: LANE, nonce: 1 }).is_none());
}

#[test]
fn outbound_lane_sends_confirms_and_prunes() {
    let mut store: MemoryStore<u64, u64> = MemoryStore::new();
    let lane = outbound_lane(LANE);
    assert_eq!(lane.send_message(&mut store, message_data(10)), 1);
    assert_eq!(lane.send_message(&mut store, message_data(20)), 2);
    assert_eq!(lane.send_message(&mut store, message_data(30)), 3);
    // nothing has been confirmed
    assert_eq!(lane.prune_messages(&mut store, 100), 0);
    assert_eq!(lane.confirm_delivery(&mut store, 2), Some((1, 2)));
    assert_eq!(lane.confirm_delivery(&mut store, 2), None);
    assert_eq!(lane.confirm_delivery(&mut store, 1), None);
    assert_eq!(lane.confirm_delivery(&mut store, 4), None);
    assert_eq!(lane.prune_messages(&mut store, 0), 0);
    assert_eq!(lane.prune_messages(&mut store, 1), 1);
    assert_eq!(lane.prune_messages(&mut store, 100), 1);
    assert_eq!(lane.prune_messages(&mut store, 100), 0);
    assert_eq!(lane.confirm_delivery(&mut store, 3), Some((3, 3)));
    assert_eq!(
        store.outbound_lane(LANE),
        OutboundLaneData {
            oldest_unpruned_nonce: 3,
            latest_received_nonce: 3,
            latest_generated_nonce: 3,
        },
    );
    assert!(store.outbound_message(MessageKey { lane_id: LANE, nonce: 2 }).is_none());
    assert_eq!(
        store.outbound_message(MessageKey { lane_id: LANE, nonce: 3 }).unwrap().fee,
        30,
    );
}

#[test]
fn outbound_storage_reads_what_it_has_written() {
    let mut store: MemoryStore<u64, u64> = MemoryStore::new();
    let storage = RuntimeOutboundLaneStorage { lane_id: LANE };
    assert_eq!(storage.id(), LANE);
    storage.save_message(&mut store, 7, message_data(70));
    let read = storage.message(&store, &7).unwrap();
    assert_eq!((read.payload, read.fee), (vec![1, 2, 3], 70));
    assert!(storage.message(&store, &8).is_none());
    assert!(RuntimeOutboundLaneStorage { lane_id: LANE + 1 }.message(&store, &7).is_none());
    storage.remove_message(&mut store, &7);
    assert!(storage.message(&store, &7).is_none());
    let data = OutboundLaneData {
        oldest_unpruned_nonce: 2,
        latest_received_nonce: 3,
        latest_generated_nonce: 4,
    };
    storage.set_data(&mut store, data);
    assert_eq!(storage.data(&store), data);
}

#[test]
fn inbound_storage_reads_what_it_has_written() {
    let mut store: MemoryStore<u64, u64> = MemoryStore::new();
    store.set_inbound_lane(LANE, inbound_data(vec![(1, 2, 5)], 2, 0));
    let mut storage = RuntimeInboundLaneStorage {
        lane_id: LANE,
        max_unconfirmed_messages: 3,
        cached_data: None,
    };
    assert_eq!(storage.id(), LANE);
    assert_eq!(storage.max_unconfirmed_messages(), 3);
    assert_eq!(storage.data(&store), inbound_data(vec![(1, 2, 5)], 2, 0));
    assert_eq!(storage.cached_data, Some(inbound_data(vec![(1, 2, 5)], 2, 0)));
    storage.set_data(&mut store, inbound_data(vec![(1, 3, 5)], 3, 0));
    assert_eq!(storage.data(&store), inbound_data(vec![(1, 3, 5)], 3, 0));
    assert_eq!(store.inbound_lane(LANE), inbound_data(vec![(1, 3, 5)], 3, 0));
}

#[test]
fn inbound_storage_gives_what_it_has_read_first() {
    let mut store: MemoryStore<u64, u64> = MemoryStore::new();
    let new_storage = || RuntimeInboundLaneStorage::<u64> {
        lane_id: LANE,
        max_unconfirmed_messages: 3,
        cached_data: None,
    };
    let (mut first, mut second) = (new_storage(), new_storage());
    assert_eq!(first.data(&store), inbound_data(vec![], 0, 0));
    second.set_data(&mut store, inbound_data(vec![(1, 2, 5)], 2, 0));
    assert_eq!(first.data(&store), inbound_data(vec![], 0, 0));
    assert_eq!(second.data(&store), inbound_data(vec![(1, 2, 5)], 2, 0));
    assert_eq!(new_storage().data(&store), inbound_data(vec![(1, 2, 5)], 2, 0));
}

#[test]
fn inbound_lane_goes_by_what_it_has_read_first() {
    let mut store: MemoryStore<u64, u64> = MemoryStore::new();
    let mut dispatch = CountingDispatch { dispatched: vec![] };
    let mut lane = inbound_lane::<u64>(LANE, 3);
    let mut receive = |store: &mut MemoryStore<u64, u64>, nonce: u64| -> bool {
        lane.receive_message::<MemoryStore<u64, u64>, u64, CountingDispatch>(
            store,
            &mut dispatch,
            1,
            nonce,
            DispatchMessageData { payload: Err(DecodeError), fee: 0 },
        )
    };
    assert!(receive(&mut store, 1));
    store.set_inbound_lane(LANE, inbound_data(vec![(1, 7, 5)], 7, 0));
    assert!(!receive(&mut store, 8));
    assert_eq!(store.inbound_lane(LANE), inbound_data(vec![(1, 7, 5)], 7, 0));
    assert!(receive(&mut store, 2));
    assert_eq!(store.inbound_lane(LANE), inbound_data(vec![(1, 2, 1)], 2, 0));
    assert_eq!(dispatch.dispatched, vec![1, 2]);

    let mut lane = inbound_lane::<u64>(LANE, 3);
    let report = |nonce: u64| OutboundLaneData {
        latest_received_nonce: nonce,
        ..Default::default()
    };
    assert_eq!(lane.receive_state_update(&mut store, report(0)), None);
    store.set_inbound_lane(LANE, inbound_data(vec![(1, 7, 5)], 7, 0));
    assert_eq!(lane.receive_state_update(&mut store, report(3)), None);
    assert_eq!(store.inbound_lane(LANE), inbound_data(vec![(1, 7, 5)], 7, 0));
    assert_eq!(lane.receive_state_update(&mut store, report(1)), Some(1));
    assert_eq!(store.inbound_lane(LANE), inbound_data(vec![(2, 2, 1)], 2, 1));
}

#[test]
fn state_update_is_ignored_without_news() {
    let data = || inbound_data(vec![(9, 10, 1)], 10, 8);
    assert_eq!(updated(data(), 11), (None, data()));
    assert_eq!(updated(data(), 8), (None, data()));
    assert_eq!(updated(data(), 0), (None, data()));
}

#[test]
fn state_update_drops_confirmed_entries() {
    let data = || inbound_data(vec![(1, 2, 1), (3, 6, 2), (7, 7, 1)], 7, 0);
    assert_eq!(
        updated(data(), 2),
        (Some(2), inbound_data(vec![(3, 6, 2), (7, 7, 1)], 7, 2)),
    );
    assert_eq!(
        updated(data(), 4),
        (Some(4), inbound_data(vec![(5, 6, 2), (7, 7, 1)], 7, 4)),
    );
    // only the first message of the entry
    assert_eq!(
        updated(data(), 3),
        (Some(3), inbound_data(vec![(4, 6, 2), (7, 7, 1)], 7, 3)),
    );
    assert_eq!(updated(data(), 7), (Some(7), inbound_data(vec![], 7, 7)));
}

#[test]
fn message_is_received_if_it_is_the_next_one() {
    let mut store: MemoryStore<u64, u64> = MemoryStore::new();
    let mut dispatch = CountingDispatch { dispatched: vec![] };
    let mut lane = inbound_lane::<u64>(LANE, 2);
    let mut receive = |relayer: u64, nonce: u64| -> bool {
        lane.receive_message::<MemoryStore<u64, u64>, u64, CountingDispatch>(
            &mut store,
            &mut dispatch,
            relayer,
            nonce,
            DispatchMessageData { payload: Err(DecodeError), fee: 0 },
        )
    };
    assert!(!receive(1, 0));
    assert!(!receive(1, 2));
    assert!(receive(1, 1));
    assert!(!receive(1, 1));
    assert!(receive(1, 2));
    assert!(receive(2, 3));
    // there is no room for another entry, but the latest one may grow
    assert!(!receive(1, 4));
    assert!(receive(2, 4));
    assert!(!receive(1, 5));
    assert_eq!(dispatch.dispatched, vec![1, 2, 3, 4]);
    assert_eq!(store.inbound_lane(LANE), inbound_data(vec![(1, 2, 1), (3, 4, 2)], 4, 0));
}

#[test]
fn no_message_follows_the_greatest_nonce() {
    let mut store: MemoryStore<u64, u64> = MemoryStore::new();
    store.set_inbound_lane(LANE, inbound_data(vec![], u64::MAX, u64::MAX));
    let mut dispatch = CountingDispatch { dispatched: vec![] };
    let mut lane = inbound_lane::<u64>(LANE, 2);
    for nonce in [0, 1, u64::MAX] {
        assert!(!lane.receive_message::<MemoryStore<u64, u64>, u64, CountingDispatch>(
            &mut store,
            &mut dispatch,
            1,
            nonce,
            DispatchMessageData { payload: Err(DecodeError), fee: 0 },
        ));
    }
}

#[test]
fn call_is_encoded_in_sixteen_bytes() {
    let call: (u64, Weight) = (0x1122_3344_5566_7788, 256);
    let bytes = call.encode();
    assert_eq!(
        bytes,
        vec![0x88, 0x77, 0x66, 0x55, 0x44, 0x33, 0x22, 0x11, 0, 1, 0, 0, 0, 0, 0, 0],
    );
    assert_eq!(<(u64, Weight) as Decode>::decode(&bytes), Ok(call));
}

#[test]
fn short_bytes_do_not_decode() {
    assert_eq!(<(u64, Weight) as Decode>::decode(&vec![]), Err(DecodeError));
    assert_eq!(<(u64, Weight) as Decode>::decode(&vec![0; 15]), Err(DecodeError));
}

#[test]
fn bytes_after_a_call_are_left_alone() {
    let mut bytes = (5u64, 6u64).encode();
    bytes.push(0xff);
    assert_eq!(<(u64, Weight) as Decode>::decode(&bytes), Ok((5, 6)));
}

#[test]
fn decoding_keeps_key_and_fee() {
    let key = MessageKey { lane_id: LANE, nonce: 3 };
    let decoded: DispatchMessage<(u64, Weight), u64> =
        decode_message(Message { key, data: MessageData { payload: vec![1], fee: 9 } });
    assert_eq!(decoded.key, key);
    assert_eq!(decoded.data.fee, 9);
    assert_eq!(decoded.data.payload, Err(DecodeError));
}

#[test]
fn decoding_keeps_lanes_and_order() {
    let message = |lane_id: u32, nonce: u64| Message {
        key: MessageKey { lane_id, nonce },
        data: MessageData { payload: (nonce, 0u64).encode(), fee: 0u64 },
    };
    let mut lanes: BTreeMap<u32, ProvedLaneMessages<Message<u64>>> = BTreeMap::new();
    lanes.insert(
        9,
        ProvedLaneMessages {
            lane_state: Some(OutboundLaneData::default()),
            messages: vec![message(9, 5), message(9, 4)],
        },
    );
    lanes.insert(2, ProvedLaneMessages { lane_state: None, messages: vec![] });
    let decoded = decode_proved_messages::<(u64, Weight), u64>(lanes);
    assert_eq!(decoded.len(), 2);
    assert_eq!(decoded[&9].lane_state, Some(OutboundLaneData::default()));
    assert_eq!(decoded[&9].messages[0].data.payload, Ok((5, 0)));
    assert_eq!(decoded[&9].messages[1].data.payload, Ok((4, 0)));
    assert_eq!(decoded[&2].lane_state, None);
    assert!(decoded[&2].messages.is_empty());
}

#[test]
fn bytes_of_one_message_touch_its_payload_only() {
    let lanes = |bytes: Vec<u8>| -> BTreeMap<u32, ProvedLaneMessages<Message<u64>>> {
        let message = |lane_id: u32, nonce: u64, payload: Vec<u8>| Message {
            key: MessageKey { lane_id, nonce },
            data: MessageData { payload, fee: nonce * 10 },
        };
        let lane = |messages: Vec<Message<u64>>, received: u64| ProvedLaneMessages {
            lane_state: Some(OutboundLaneData {
                latest_received_nonce: received,
                ..Default::default()
            }),
            messages,
        };
        vec![
            (1, lane(vec![message(1, 1, (5u64, 6u64).encode())], 3)),
            (
                2,
                lane(
                    vec![
                        message(2, 1, (7u64, 8u64).encode()),
                        message(2, 2, bytes),
                        message(2, 3, vec![1]),
                    ],
                    4,
                ),
            ),
        ]
        .into_iter()
        .collect()
    };
    let decoded = |bytes: Vec<u8>| -> Vec<(u32, u64, u64, u64, Option<(u64, u64)>)> {
        decode_proved_messages::<(u64, u64), u64>(lanes(bytes))
            .into_iter()
            .flat_map(|(lane_id, lane)| {
                let received = lane.lane_state.unwrap().latest_received_nonce;
                lane.messages.into_iter().map(move |message| {
                    let data = message.data;
                    (lane_id, received, message.key.nonce, data.fee, data.payload.ok())
                })
            })
            .collect()
    };
    let expected = |payload: Option<(u64, u64)>| {
        vec![
            (1, 3, 1, 10, Some((5, 6))),
            (2, 4, 1, 10, Some((7, 8))),
            (2, 4, 2, 20, payload),
            (2, 4, 3, 30, None),
        ]
    };
    assert_eq!(decoded((9u64, 10u64).encode()), expected(Some((9, 10))));
    assert_eq!(decoded((11u64, 12u64).encode()), expected(Some((11, 12))));
    assert_eq!(decoded(vec![]), expected(None));
}

#[test]
fn lanes_come_in_ascending_order() {
    let mut lanes: BTreeMap<u32, u8> = BTreeMap::new();
    for lane_id in [7, 1, 256, 3] {
        lanes.insert(lane_id, (lane_id % 100) as u8);
    }
    assert_eq!(lanes_in_order(lanes), vec![(1, 1), (3, 3), (7, 7), (256, 56)]);
}

#[test]
fn only_signed_origins_have_an_account() {
    assert_eq!(ensure_signed(RawOrigin::Signed(3u64)), Ok(3));
    assert_eq!(ensure_signed(RawOrigin::<u64>::Root), Err(DispatchError::BadOrigin));
    assert_eq!(ensure_signed(RawOrigin::<u64>::Unsigned), Err(DispatchError::BadOrigin));
}
