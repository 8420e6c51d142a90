use pallet_message_lane::codec::{DispatchMessage, Encode};
use pallet_message_lane::config::{
    LaneMessageVerifier, MessageDeliveryAndDispatchPayment, MessageDispatch, SourceHeaderChain,
    TargetHeaderChain, Trait,
};
use pallet_message_lane::module::{delivery_weight, refused_as, Module};
use pallet_message_lane::primitives::{
    DispatchError, Error, Event, InboundLaneData, LaneId, Message, MessageData, MessageKey,
    MessageNonce, OutboundLaneData, ProvedLaneMessages, ProvedMessages, RawOrigin, Weight,
};
use pallet_message_lane::store::{MemoryStore, Store};
use std::collections::BTreeMap;

type AccountId = u64;
type TestPayload = (u64, Weight);
type TestMessageFee = u64;

const TEST_LANE_ID: LaneId = 1;
const OTHER_LANE_ID: LaneId = 0x0100_0000;
const TEST_RELAYER_A: AccountId = 100;
const TEST_RELAYER_B: AccountId = 101;
const TEST_RELAYER_C: AccountId = 102;
const REGULAR_PAYLOAD: TestPayload = (0, 50);
const PAYLOAD_REJECTED_BY_TARGET_CHAIN: TestPayload = (1, 50);

struct TestTargetHeaderChain;

impl TargetHeaderChain<TestPayload, AccountId> for TestTargetHeaderChain {
    type Error = &'static str;
    type MessagesDeliveryProof = Result<(LaneId, InboundLaneData<AccountId>), ()>;

    fn verify_message(&self, payload: &TestPayload) -> Result<(), &'static str> {
        if *payload == PAYLOAD_REJECTED_BY_TARGET_CHAIN {
            Err("Rejected by TestTargetHeaderChain")
        } else {
            Ok(())
        }
    }

    fn verify_messages_delivery_proof(
        &self,
        proof: Self::MessagesDeliveryProof,
    ) -> Result<(LaneId, InboundLaneData<AccountId>), &'static str> {
        proof.map_err(|_| "Rejected by TestTargetHeaderChain")
    }
}

struct TestLaneMessageVerifier;

impl LaneMessageVerifier<AccountId, TestPayload, TestMessageFee> for TestLaneMessageVerifier {
    type Error = &'static str;

    fn verify_message(
        &self,
        _submitter: &AccountId,
        delivery_and_dispatch_fee: &TestMessageFee,
        _lane: &LaneId,
        _payload: &TestPayload,
    ) -> Result<(), &'static str> {
        if *delivery_and_dispatch_fee != 0 {
            Ok(())
        } else {
            Err("Rejected by TestLaneMessageVerifier")
        }
    }
}

#[derive(Clone, Debug, Default, PartialEq)]
struct TestPayment {
    rejects_payments: bool,
    fees: Vec<(AccountId, TestMessageFee)>,
    rewards: Vec<(AccountId, AccountId, TestMessageFee)>,
}

impl TestPayment {
    fn is_fee_paid(&self, submitter: AccountId, fee: TestMessageFee) -> bool {
        self.fees.contains(&(submitter, fee))
    }

    /// Tells whether the reward has been paid since it was last asked for.
    fn is_reward_paid(&mut self, relayer: AccountId, fee: TestMessageFee) -> bool {
        let before = self.rewards.len();
        self.rewards.retain(|reward| (reward.1, reward.2) != (relayer, fee));
        self.rewards.len() < before
    }
}

impl MessageDeliveryAndDispatchPayment<AccountId, TestMessageFee> for TestPayment {
    type Error = &'static str;

    fn pay_delivery_and_dispatch_fee(
        &mut self,
        submitter: &AccountId,
        fee: &TestMessageFee,
    ) -> Result<(), &'static str> {
        if self.rejects_payments {
            return Err("Rejected by TestPayment");
        }
        self.fees.push((*submitter, *fee));
        Ok(())
    }

    fn pay_relayer_reward(
        &mut self,
        confirmation_relayer: &AccountId,
        relayer: &AccountId,
        fee: &TestMessageFee,
    ) {
        self.rewards.push((*confirmation_relayer, *relayer, *fee));
    }
}

struct TestMessagesProof {
    result: Result<Vec<(LaneId, ProvedLaneMessages<Message<TestMessageFee>>)>, ()>,
}

impl From<Result<Vec<Message<TestMessageFee>>, ()>> for TestMessagesProof {
    fn from(result: Result<Vec<Message<TestMessageFee>>, ()>) -> Self {
        TestMessagesProof {
            result: result.map(|messages| {
                let mut lanes: BTreeMap<LaneId, ProvedLaneMessages<Message<TestMessageFee>>> =
                    BTreeMap::new();
                for message in messages {
                    lanes
                        .entry(message.key.lane_id)
                        .or_insert(ProvedLaneMessages { lane_state: None, messages: vec![] })
                        .messages
                        .push(message);
                }
                lanes.into_iter().collect()
            }),
        }
    }
}

struct TestSourceHeaderChain;

impl SourceHeaderChain<TestMessageFee> for TestSourceHeaderChain {
    type Error = &'static str;
    type MessagesProof = TestMessagesProof;

    fn verify_messages_proof(
        &self,
        proof: TestMessagesProof,
    ) -> Result<ProvedMessages<Message<TestMessageFee>>, &'static str> {
        proof
            .result
            .map(|lanes| lanes.into_iter().collect())
            .map_err(|_| "Rejected by TestSourceHeaderChain")
    }
}

#[derive(Clone, Debug, Default, PartialEq)]
struct TestMessageDispatch {
    dispatched: Vec<(LaneId, MessageNonce, Option<TestPayload>)>,
}

impl MessageDispatch<TestMessageFee> for TestMessageDispatch {
    type DispatchPayload = TestPayload;

    fn dispatch_weight(&self, message: &DispatchMessage<TestPayload, TestMessageFee>) -> Weight {
        match &message.data.payload {
            Ok(payload) => payload.1,
            Err(_) => 0,
        }
    }

    fn dispatch(&mut self, message: DispatchMessage<TestPayload, TestMessageFee>) {
        self.dispatched.push((
            message.key.lane_id,
            message.key.nonce,
            message.data.payload.ok(),
        ));
    }
}

struct TestRuntime;

impl Trait for TestRuntime {
    type AccountId = AccountId;
    type OutboundPayload = TestPayload;
    type OutboundMessageFee = TestMessageFee;
    type InboundPayload = TestPayload;
    type InboundMessageFee = TestMessageFee;
    type InboundRelayer = AccountId;
    type Store = MemoryStore<AccountId, TestMessageFee>;
    type TargetHeaderChain = TestTargetHeaderChain;
    type LaneMessageVerifier = TestLaneMessageVerifier;
    type MessageDeliveryAndDispatchPayment = TestPayment;
    type SourceHeaderChain = TestSourceHeaderChain;
    type MessageDispatch = TestMessageDispatch;
}

fn new_module() -> Module<TestRuntime> {
    Module {
        store: MemoryStore::new(),
        events: vec![],
        target_header_chain: TestTargetHeaderChain,
        lane_message_verifier: TestLaneMessageVerifier,
        payment: TestPayment::default(),
        source_header_chain: TestSourceHeaderChain,
        message_dispatch: TestMessageDispatch::default(),
        max_messages_to_prune_at_once: 10,
        max_unconfirmed_messages_at_inbound_lane: 16,
    }
}

fn message_of_lane(
    lane_id: LaneId,
    nonce: MessageNonce,
    payload: TestPayload,
) -> Message<TestMessageFee> {
    Message {
        key: MessageKey { lane_id, nonce },
        data: MessageData { payload: payload.encode(), fee: 0 },
    }
}

fn message(nonce: MessageNonce, payload: TestPayload) -> Message<TestMessageFee> {
    message_of_lane(TEST_LANE_ID, nonce, payload)
}

fn send_regular_message(module: &mut Module<TestRuntime>) {
    module.events.clear();

    assert_eq!(
        module.send_message(
            RawOrigin::Signed(1),
            TEST_LANE_ID,
            REGULAR_PAYLOAD,
            REGULAR_PAYLOAD.1,
        ),
        Ok(()),
    );

    // check event with assigned nonce
    assert_eq!(module.events, vec![Event::MessageAccepted(TEST_LANE_ID, 1)]);

    // check that fee has been withdrawn from submitter
    assert!(module.payment.is_fee_paid(1, REGULAR_PAYLOAD.1));
}

fn receive_messages_delivery_proof(module: &mut Module<TestRuntime>) {
    module.events.clear();

    assert_eq!(
        module.receive_messages_delivery_proof(
            RawOrigin::Signed(1),
            Ok((
                TEST_LANE_ID,
                InboundLaneData { latest_received_nonce: 1, ..Default::default() },
            )),
        ),
        Ok(()),
    );

    assert_eq!(module.events, vec![Event::MessagesDelivered(TEST_LANE_ID, 1, 1)]);
}

/// Everything that a call may change.
type Everything = (
    Vec<Event>,
    TestPayment,
    TestMessageDispatch,
    MemoryStore<AccountId, TestMessageFee>,
);

fn everything(module: &Module<TestRuntime>) -> Everything {
    (
        module.events.clone(),
        module.payment.clone(),
        module.message_dispatch.clone(),
        module.store.clone(),
    )
}

fn deliver(
    module: &mut Module<TestRuntime>,
    relayer: AccountId,
    nonces: Vec<MessageNonce>,
) -> Result<(), DispatchError> {
    let messages: Vec<Message<TestMessageFee>> =
        nonces.into_iter().map(|nonce| message(nonce, REGULAR_PAYLOAD)).collect();
    module.receive_messages_proof(
        RawOrigin::Signed(1),
        relayer,
        Ok(messages).into(),
        Weight::MAX,
    )
}

#[test]
fn send_message_works() {
    send_regular_message(&mut new_module());
}

#[test]
fn chain_verifier_rejects_invalid_message_in_send_message() {
    let mut module = new_module();
    let before = everything(&module);
    // messages with this payload are rejected by target chain verifier
    assert_eq!(
        module.send_message(
            RawOrigin::Signed(1),
            TEST_LANE_ID,
            PAYLOAD_REJECTED_BY_TARGET_CHAIN,
            PAYLOAD_REJECTED_BY_TARGET_CHAIN.1,
        ),
        Err(DispatchError::Module(Error::MessageRejectedByChainVerifier)),
    );
    assert_eq!(everything(&module), before);
}

#[test]
fn lane_verifier_rejects_invalid_message_in_send_message() {
    let mut module = new_module();
    let before = everything(&module);
    // messages with zero fee are rejected by lane verifier
    assert_eq!(
        module.send_message(RawOrigin::Signed(1), TEST_LANE_ID, REGULAR_PAYLOAD, 0),
        Err(DispatchError::Module(Error::MessageRejectedByLaneVerifier)),
    );
    assert_eq!(everything(&module), before);
}

#[test]
fn message_send_fails_if_submitter_cant_pay_message_fee() {
    let mut module = new_module();
    module.payment.rejects_payments = true;
    let before = everything(&module);
    assert_eq!(
        module.send_message(
            RawOrigin::Signed(1),
            TEST_LANE_ID,
            REGULAR_PAYLOAD,
            REGULAR_PAYLOAD.1,
        ),
        Err(DispatchError::Module(Error::FailedToWithdrawMessageFee)),
    );
    assert_eq!(everything(&module), before);
}

#[test]
fn receive_messages_proof_works() {
    let mut module = new_module();
    assert_eq!(
        module.receive_messages_proof(
            RawOrigin::Signed(1),
            TEST_RELAYER_A,
            Ok(vec![message(1, REGULAR_PAYLOAD)]).into(),
            REGULAR_PAYLOAD.1,
        ),
        Ok(()),
    );

    assert_eq!(module.store.inbound_lane(TEST_LANE_ID).latest_received_nonce, 1);
}

#[test]
fn receive_messages_proof_updates_confirmed_message_nonce() {
    let mut module = new_module();
    // say we have received 10 messages && last confirmed message is 8
    module.store.set_inbound_lane(
        TEST_LANE_ID,
        InboundLaneData {
            latest_confirmed_nonce: 8,
            latest_received_nonce: 10,
            relayers: vec![(9, 9, TEST_RELAYER_A), (10, 10, TEST_RELAYER_B)].into_iter().collect(),
        },
    );

    // message proof includes outbound lane state with latest confirmed message updated to 9
    let mut message_proof: TestMessagesProof = Ok(vec![message(11, REGULAR_PAYLOAD)]).into();
    message_proof.result.as_mut().unwrap()[0].1.lane_state =
        Some(OutboundLaneData { latest_received_nonce: 9, ..Default::default() });

    assert_eq!(
        module.receive_messages_proof(
            RawOrigin::Signed(1),
            TEST_RELAYER_A,
            message_proof,
            REGULAR_PAYLOAD.1,
        ),
        Ok(()),
    );

    assert_eq!(
        module.store.inbound_lane(TEST_LANE_ID),
        InboundLaneData {
            relayers: vec![(10, 10, TEST_RELAYER_B), (11, 11, TEST_RELAYER_A)]
                .into_iter()
                .collect(),
            latest_received_nonce: 11,
            latest_confirmed_nonce: 9,
        },
    );
}

#[test]
fn receive_messages_proof_rejects_invalid_dispatch_weight() {
    let mut module = new_module();
    let before = everything(&module);
    assert_eq!(
        module.receive_messages_proof(
            RawOrigin::Signed(1),
            TEST_RELAYER_A,
            Ok(vec![message(1, REGULAR_PAYLOAD)]).into(),
            REGULAR_PAYLOAD.1 - 1,
        ),
        Err(DispatchError::Module(Error::InvalidMessagesDispatchWeight)),
    );
    assert_eq!(everything(&module), before);
}

#[test]
fn receive_messages_proof_rejects_invalid_proof() {
    let mut module = new_module();
    let before = everything(&module);
    assert_eq!(
        module.receive_messages_proof(RawOrigin::Signed(1), TEST_RELAYER_A, Err(()).into(), 0),
        Err(DispatchError::Module(Error::InvalidMessagesProof)),
    );
    assert_eq!(everything(&module), before);
}

#[test]
fn receive_messages_delivery_proof_works() {
    let mut module = new_module();
    send_regular_message(&mut module);
    receive_messages_delivery_proof(&mut module);

    assert_eq!(module.store.outbound_lane(TEST_LANE_ID).latest_received_nonce, 1);
}

#[test]
fn receive_messages_delivery_proof_rewards_relayers() {
    let mut module = new_module();
    assert_eq!(
        module.send_message(RawOrigin::Signed(1), TEST_LANE_ID, REGULAR_PAYLOAD, 1000),
        Ok(()),
    );
    assert_eq!(
        module.send_message(RawOrigin::Signed(1), TEST_LANE_ID, REGULAR_PAYLOAD, 2000),
        Ok(()),
    );

    // this reports delivery of message 1 => reward is paid to TEST_RELAYER_A
    assert_eq!(
        module.receive_messages_delivery_proof(
            RawOrigin::Signed(1),
            Ok((
                TEST_LANE_ID,
                InboundLaneData {
                    relayers: vec![(1, 1, TEST_RELAYER_A)].into_iter().collect(),
                    latest_received_nonce: 1,
                    ..Default::default()
                },
            )),
        ),
        Ok(()),
    );
    assert!(module.payment.is_reward_paid(TEST_RELAYER_A, 1000));
    assert!(!module.payment.is_reward_paid(TEST_RELAYER_B, 2000));

    // this reports delivery of both message 1 and message 2 => reward is paid only to TEST_RELAYER_B
    assert_eq!(
        module.receive_messages_delivery_proof(
            RawOrigin::Signed(1),
            Ok((
                TEST_LANE_ID,
                InboundLaneData {
                    relayers: vec![(1, 1, TEST_RELAYER_A), (2, 2, TEST_RELAYER_B)]
                        .into_iter()
                        .collect(),
                    latest_received_nonce: 2,
                    ..Default::default()
                },
            )),
        ),
        Ok(()),
    );
    assert!(!module.payment.is_reward_paid(TEST_RELAYER_A, 1000));
    assert!(module.payment.is_reward_paid(TEST_RELAYER_B, 2000));
}

#[test]
fn receive_messages_delivery_proof_rejects_invalid_proof() {
    let mut module = new_module();
    let before = everything(&module);
    assert_eq!(
        module.receive_messages_delivery_proof(RawOrigin::Signed(1), Err(())),
        Err(DispatchError::Module(Error::InvalidMessagesDeliveryProof)),
    );
    assert_eq!(everything(&module), before);
}

#[test]
fn receive_messages_accepts_single_message_with_invalid_payload() {
    let mut module = new_module();
    let mut invalid_message = message(1, REGULAR_PAYLOAD);
    invalid_message.data.payload = Vec::new();

    assert_eq!(
        module.receive_messages_proof(
            RawOrigin::Signed(1),
            TEST_RELAYER_A,
            Ok(vec![invalid_message]).into(),
            0, // weight may be zero in this case (all messages are improperly encoded)
        ),
        Ok(()),
    );

    assert_eq!(module.store.inbound_lane(TEST_LANE_ID).latest_received_nonce, 1);
}

#[test]
fn receive_messages_accepts_batch_with_message_with_invalid_payload() {
    let mut module = new_module();
    let mut invalid_message = message(2, REGULAR_PAYLOAD);
    invalid_message.data.payload = Vec::new();

    assert_eq!(
        module.receive_messages_proof(
            RawOrigin::Signed(1),
            TEST_RELAYER_A,
            Ok(vec![
                message(1, REGULAR_PAYLOAD),
                invalid_message,
                message(3, REGULAR_PAYLOAD),
            ])
            .into(),
            REGULAR_PAYLOAD.1 + REGULAR_PAYLOAD.1,
        ),
        Ok(()),
    );

    assert_eq!(module.store.inbound_lane(TEST_LANE_ID).latest_received_nonce, 3);
    assert_eq!(
        module.message_dispatch.dispatched,
        vec![
            (TEST_LANE_ID, 1, Some(REGULAR_PAYLOAD)),
            (TEST_LANE_ID, 2, None),
            (TEST_LANE_ID, 3, Some(REGULAR_PAYLOAD)),
        ],
    );
}

#[test]
fn calls_have_to_be_signed() {
    let mut module = new_module();
    let before = everything(&module);
    assert_eq!(
        module.send_message(RawOrigin::Root, TEST_LANE_ID, REGULAR_PAYLOAD, 1),
        Err(DispatchError::BadOrigin),
    );
    assert_eq!(
        module.send_message(RawOrigin::Unsigned, TEST_LANE_ID, REGULAR_PAYLOAD, 1),
        Err(DispatchError::BadOrigin),
    );
    assert_eq!(
        module.receive_messages_proof(
            RawOrigin::Unsigned,
            TEST_RELAYER_A,
            Ok(vec![message(1, REGULAR_PAYLOAD)]).into(),
            REGULAR_PAYLOAD.1,
        ),
        Err(DispatchError::BadOrigin),
    );
    assert_eq!(
        module.receive_messages_delivery_proof(RawOrigin::Root, Err(())),
        Err(DispatchError::BadOrigin),
    );
    assert_eq!(everything(&module), before);
}

#[test]
fn sent_message_is_stored_with_encoded_payload() {
    let mut module = new_module();
    assert_eq!(module.send_message(RawOrigin::Signed(1), TEST_LANE_ID, (0x0102, 3), 77), Ok(()));
    let stored = module
        .store
        .outbound_message(MessageKey { lane_id: TEST_LANE_ID, nonce: 1 })
        .unwrap();
    assert_eq!(stored.payload, vec![2, 1, 0, 0, 0, 0, 0, 0, 3, 0, 0, 0, 0, 0, 0, 0]);
    assert_eq!(stored.fee, 77);
}

#[test]
fn nonces_of_each_lane_are_counted_from_one() {
    let mut module = new_module();
    for lane_id in [TEST_LANE_ID, OTHER_LANE_ID, TEST_LANE_ID] {
        assert_eq!(
            module.send_message(RawOrigin::Signed(1), lane_id, REGULAR_PAYLOAD, 1),
            Ok(()),
        );
    }
    assert_eq!(
        module.events,
        vec![
            Event::MessageAccepted(TEST_LANE_ID, 1),
            Event::MessageAccepted(OTHER_LANE_ID, 1),
            Event::MessageAccepted(TEST_LANE_ID, 2),
        ],
    );
}

#[test]
fn confirming_and_sending_prune_confirmed_messages_up_to_the_limit() {
    let mut module = new_module();
    module.max_messages_to_prune_at_once = 2;
    for _ in 0..4 {
        module
            .send_message(RawOrigin::Signed(1), TEST_LANE_ID, REGULAR_PAYLOAD, 1)
            .unwrap();
    }
    module.confirm_messages_delivery(
        &1,
        TEST_LANE_ID,
        InboundLaneData { latest_received_nonce: 3, ..Default::default() },
    );
    let queued = |module: &Module<TestRuntime>| -> Vec<MessageNonce> {
        (0..10)
            .filter(|nonce| {
                module
                    .store
                    .outbound_message(MessageKey { lane_id: TEST_LANE_ID, nonce: *nonce })
                    .is_some()
            })
            .collect()
    };
    assert_eq!(queued(&module), vec![3, 4]);
    module.send_message(RawOrigin::Signed(1), TEST_LANE_ID, REGULAR_PAYLOAD, 1).unwrap();
    assert_eq!(queued(&module), vec![4, 5]);
    module.send_message(RawOrigin::Signed(1), TEST_LANE_ID, REGULAR_PAYLOAD, 1).unwrap();
    assert_eq!(queued(&module), vec![4, 5, 6]);
    assert_eq!(module.store.outbound_lane(TEST_LANE_ID).oldest_unpruned_nonce, 4);
}

#[test]
fn stale_and_premature_confirmations_change_nothing() {
    let mut module = new_module();
    send_regular_message(&mut module);
    receive_messages_delivery_proof(&mut module);
    let before = everything(&module);
    for latest_received_nonce in [0, 1, 2, u64::MAX] {
        assert_eq!(
            module.receive_messages_delivery_proof(
                RawOrigin::Signed(1),
                Ok((
                    TEST_LANE_ID,
                    InboundLaneData {
                        relayers: vec![(0, u64::MAX, TEST_RELAYER_A)].into_iter().collect(),
                        latest_received_nonce,
                        latest_confirmed_nonce: 0,
                    },
                )),
            ),
            Ok(()),
        );
        assert_eq!(everything(&module), before);
    }
}

#[test]
fn rewards_go_to_relayers_in_the_order_of_nonces() {
    let mut module = new_module();
    for fee in [10, 20, 30, 40] {
        module.send_message(RawOrigin::Signed(1), TEST_LANE_ID, REGULAR_PAYLOAD, fee).unwrap();
    }
    module.events.clear();
    assert_eq!(
        module.receive_messages_delivery_proof(
            RawOrigin::Signed(9),
            Ok((
                TEST_LANE_ID,
                InboundLaneData {
                    // the last entry reaches beyond what is reported as received
                    relayers: vec![(1, 2, TEST_RELAYER_A), (3, 5, TEST_RELAYER_B)]
                        .into_iter()
                        .collect(),
                    latest_received_nonce: 3,
                    latest_confirmed_nonce: 0,
                },
            )),
        ),
        Ok(()),
    );
    assert_eq!(module.events, vec![Event::MessagesDelivered(TEST_LANE_ID, 1, 3)]);
    assert_eq!(
        module.payment.rewards,
        vec![(9, TEST_RELAYER_A, 10), (9, TEST_RELAYER_A, 20), (9, TEST_RELAYER_B, 30)],
    );
}

#[test]
fn rewards_are_paid_for_the_greatest_nonce() {
    let mut module = new_module();
    module.store.set_outbound_lane(
        TEST_LANE_ID,
        OutboundLaneData {
            oldest_unpruned_nonce: u64::MAX,
            latest_received_nonce: u64::MAX - 1,
            latest_generated_nonce: u64::MAX,
        },
    );
    module.store.insert_outbound_message(
        MessageKey { lane_id: TEST_LANE_ID, nonce: u64::MAX },
        MessageData { payload: vec![], fee: 5 },
    );
    module.confirm_messages_delivery(
        &1,
        TEST_LANE_ID,
        InboundLaneData {
            relayers: vec![(u64::MAX, u64::MAX, TEST_RELAYER_A)].into_iter().collect(),
            latest_received_nonce: u64::MAX,
            latest_confirmed_nonce: 0,
        },
    );
    assert_eq!(module.payment.rewards, vec![(1, TEST_RELAYER_A, 5)]);
    // no nonce is left for the message after it, so the message stays
    assert!(module
        .store
        .outbound_message(MessageKey { lane_id: TEST_LANE_ID, nonce: u64::MAX })
        .is_some());
}

#[test]
fn report_is_covered_if_the_rewarded_messages_are_queued() {
    let mut module = new_module();
    for fee in [10, 20, 30] {
        module.send_message(RawOrigin::Signed(1), TEST_LANE_ID, REGULAR_PAYLOAD, fee).unwrap();
    }
    module.store.remove_outbound_message(MessageKey { lane_id: TEST_LANE_ID, nonce: 2 });
    let report = |relayers: Vec<(MessageNonce, MessageNonce, AccountId)>, received| {
        InboundLaneData {
            relayers: relayers.into_iter().collect(),
            latest_received_nonce: received,
            latest_confirmed_nonce: 0,
        }
    };
    let covered = |module: &Module<TestRuntime>, relayers, received| -> bool {
        module.is_report_covered(TEST_LANE_ID, &report(relayers, received))
    };
    assert!(covered(&module, vec![(1, 1, TEST_RELAYER_A)], 3));
    assert!(covered(&module, vec![(1, 3, TEST_RELAYER_A)], 1));
    assert!(covered(&module, vec![(1, 1, TEST_RELAYER_A), (3, 3, TEST_RELAYER_B)], 3));
    assert!(!covered(&module, vec![(1, 3, TEST_RELAYER_A)], 3));
    assert!(!covered(&module, vec![(1, 1, TEST_RELAYER_A), (2, 3, TEST_RELAYER_B)], 2));
    // what brings no news rewards nobody
    assert!(covered(&module, vec![(1, 3, TEST_RELAYER_A)], 0));
    assert!(covered(&module, vec![(1, 3, TEST_RELAYER_A)], 4));

    module.confirm_messages_delivery(
        &9,
        TEST_LANE_ID,
        report(vec![(1, 1, TEST_RELAYER_A), (3, 3, TEST_RELAYER_B)], 3),
    );
    assert_eq!(
        module.payment.rewards,
        vec![(9, TEST_RELAYER_A, 10), (9, TEST_RELAYER_B, 30)],
    );
}

#[test]
fn offer_withdraws_the_fee_and_queues_nothing() {
    let mut module = new_module();
    let store = module.store.clone();
    assert_eq!(
        module.offer_message(RawOrigin::Signed(1), TEST_LANE_ID, &REGULAR_PAYLOAD, &7),
        Ok(()),
    );
    assert!(module.payment.is_fee_paid(1, 7));
    assert_eq!(module.store, store);
    assert_eq!(module.events, vec![]);
    let before = everything(&module);
    assert_eq!(
        module.offer_message(RawOrigin::Unsigned, TEST_LANE_ID, &REGULAR_PAYLOAD, &7),
        Err(DispatchError::BadOrigin),
    );
    assert_eq!(
        module.offer_message(RawOrigin::Signed(1), TEST_LANE_ID, &REGULAR_PAYLOAD, &0),
        Err(DispatchError::Module(Error::MessageRejectedByLaneVerifier)),
    );
    assert_eq!(everything(&module), before);
}

#[test]
fn delivery_proof_is_read_if_it_is_signed_and_passed() {
    let module = new_module();
    let lane = || InboundLaneData { latest_received_nonce: 4, ..Default::default() };
    assert_eq!(
        module.read_delivery_proof(RawOrigin::Signed(6), Ok((TEST_LANE_ID, lane()))),
        Ok((6, TEST_LANE_ID, lane())),
    );
    assert_eq!(
        module.read_delivery_proof(RawOrigin::Unsigned, Ok((TEST_LANE_ID, lane()))),
        Err(DispatchError::BadOrigin),
    );
    assert_eq!(
        module.read_delivery_proof(RawOrigin::Signed(6), Err(())),
        Err(DispatchError::Module(Error::InvalidMessagesDeliveryProof)),
    );
}

#[test]
fn messages_are_dispatched_in_order_and_once() {
    let mut module = new_module();
    assert_eq!(deliver(&mut module, TEST_RELAYER_A, vec![2, 1, 1, 2, 4, 3]), Ok(()));
    let dispatched = |module: &Module<TestRuntime>| -> Vec<MessageNonce> {
        module.message_dispatch.dispatched.iter().map(|message| message.1).collect()
    };
    assert_eq!(dispatched(&module), vec![1, 2, 3]);
    // the same messages once more
    let lane = module.store.inbound_lane(TEST_LANE_ID);
    assert_eq!(deliver(&mut module, TEST_RELAYER_B, vec![1, 2, 3]), Ok(()));
    assert_eq!(dispatched(&module), vec![1, 2, 3]);
    assert_eq!(module.store.inbound_lane(TEST_LANE_ID), lane);
}

#[test]
fn single_relayer_takes_single_place_of_the_limit() {
    let mut module = new_module();
    module.max_unconfirmed_messages_at_inbound_lane = 1;
    assert_eq!(deliver(&mut module, TEST_RELAYER_A, vec![1, 2]), Ok(()));
    assert_eq!(deliver(&mut module, TEST_RELAYER_A, vec![3, 4]), Ok(()));
    assert_eq!(
        module.store.inbound_lane(TEST_LANE_ID).relayers.into_iter().collect::<Vec<_>>(),
        vec![(1, 4, TEST_RELAYER_A)],
    );
}

#[test]
fn messages_beyond_the_limit_are_rejected() {
    let mut module = new_module();
    module.max_unconfirmed_messages_at_inbound_lane = 2;
    assert_eq!(deliver(&mut module, TEST_RELAYER_A, vec![1]), Ok(()));
    assert_eq!(deliver(&mut module, TEST_RELAYER_B, vec![2, 3]), Ok(()));
    assert_eq!(deliver(&mut module, TEST_RELAYER_A, vec![4]), Ok(()));
    let lane = module.store.inbound_lane(TEST_LANE_ID);
    assert_eq!(lane.latest_received_nonce, 3);
    assert_eq!(
        lane.relayers.into_iter().collect::<Vec<_>>(),
        vec![(1, 1, TEST_RELAYER_A), (2, 3, TEST_RELAYER_B)],
    );
}

#[test]
fn every_lane_of_a_proof_stays_within_the_limit() {
    let mut module = new_module();
    module.max_unconfirmed_messages_at_inbound_lane = 1;
    assert_eq!(deliver(&mut module, TEST_RELAYER_A, vec![1]), Ok(()));
    // there is no room at the first lane, and room for one entry at the other one
    let messages = |nonce: MessageNonce| -> Result<Vec<Message<TestMessageFee>>, ()> {
        Ok(vec![
            message_of_lane(TEST_LANE_ID, 2, REGULAR_PAYLOAD),
            message_of_lane(OTHER_LANE_ID, nonce, REGULAR_PAYLOAD),
        ])
    };
    for (relayer, nonce) in [(TEST_RELAYER_B, 1), (TEST_RELAYER_C, 2)] {
        assert_eq!(
            module.receive_messages_proof(
                RawOrigin::Signed(1),
                relayer,
                messages(nonce).into(),
                2 * REGULAR_PAYLOAD.1,
            ),
            Ok(()),
        );
    }
    assert_eq!(
        module.store.inbound_lane(TEST_LANE_ID).relayers.into_iter().collect::<Vec<_>>(),
        vec![(1, 1, TEST_RELAYER_A)],
    );
    assert_eq!(
        module.store.inbound_lane(OTHER_LANE_ID).relayers.into_iter().collect::<Vec<_>>(),
        vec![(1, 1, TEST_RELAYER_B)],
    );
    // a state of the bridged lane makes room, and the one entry of the proof takes it
    let mut messages_proof: TestMessagesProof = messages(2).into();
    for lane in messages_proof.result.as_mut().unwrap() {
        lane.1.lane_state =
            Some(OutboundLaneData { latest_received_nonce: 1, ..Default::default() });
    }
    assert_eq!(
        module.receive_messages_proof(
            RawOrigin::Signed(1),
            TEST_RELAYER_C,
            messages_proof,
            2 * REGULAR_PAYLOAD.1,
        ),
        Ok(()),
    );
    for lane_id in [TEST_LANE_ID, OTHER_LANE_ID] {
        assert_eq!(
            module.store.inbound_lane(lane_id).relayers.into_iter().collect::<Vec<_>>(),
            vec![(2, 2, TEST_RELAYER_C)],
        );
    }
}

#[test]
fn lanes_are_taken_in_the_order_of_their_identifiers() {
    let mut module = new_module();
    assert_eq!(
        module.receive_messages_proof(
            RawOrigin::Signed(1),
            TEST_RELAYER_A,
            Ok(vec![
                message_of_lane(OTHER_LANE_ID, 1, (7, 1)),
                message_of_lane(TEST_LANE_ID, 1, (8, 1)),
                message_of_lane(OTHER_LANE_ID, 2, (9, 1)),
            ])
            .into(),
            3,
        ),
        Ok(()),
    );
    assert_eq!(
        module.message_dispatch.dispatched,
        vec![
            (TEST_LANE_ID, 1, Some((8, 1))),
            (OTHER_LANE_ID, 1, Some((7, 1))),
            (OTHER_LANE_ID, 2, Some((9, 1))),
        ],
    );
}

#[test]
fn weight_of_all_lanes_has_to_be_paid() {
    let mut module = new_module();
    let messages = || {
        Ok(vec![
            message_of_lane(OTHER_LANE_ID, 1, (7, 10)),
            message_of_lane(TEST_LANE_ID, 1, (8, 20)),
        ])
    };
    assert_eq!(
        module.receive_messages_proof(
            RawOrigin::Signed(1),
            TEST_RELAYER_A,
            messages().into(),
            29,
        ),
        Err(DispatchError::Module(Error::InvalidMessagesDispatchWeight)),
    );
    assert_eq!(
        module.receive_messages_proof(
            RawOrigin::Signed(1),
            TEST_RELAYER_A,
            messages().into(),
            30,
        ),
        Ok(()),
    );
}

#[test]
fn weight_that_cannot_be_declared_is_refused() {
    let mut module = new_module();
    assert_eq!(
        module.receive_messages_proof(
            RawOrigin::Signed(1),
            TEST_RELAYER_A,
            Ok(vec![message(1, (0, u64::MAX)), message(2, (0, 1)), message(3, (0, 5))]).into(),
            u64::MAX,
        ),
        Err(DispatchError::Module(Error::InvalidMessagesDispatchWeight)),
    );
}

#[test]
fn lane_state_is_taken_in_before_the_messages() {
    let mut module = new_module();
    module.max_unconfirmed_messages_at_inbound_lane = 1;
    assert_eq!(deliver(&mut module, TEST_RELAYER_A, vec![1]), Ok(()));
    let mut message_proof: TestMessagesProof = Ok(vec![message(2, REGULAR_PAYLOAD)]).into();
    message_proof.result.as_mut().unwrap()[0].1.lane_state =
        Some(OutboundLaneData { latest_received_nonce: 1, ..Default::default() });
    assert_eq!(
        module.receive_messages_proof(
            RawOrigin::Signed(1),
            TEST_RELAYER_B,
            message_proof,
            REGULAR_PAYLOAD.1,
        ),
        Ok(()),
    );
    let lane = module.store.inbound_lane(TEST_LANE_ID);
    assert_eq!(lane.latest_confirmed_nonce, 1);
    assert_eq!(lane.latest_received_nonce, 2);
}

#[test]
fn refusals_become_errors_of_the_module() {
    assert_eq!(
        refused_as(Err::<u8, &str>("no"), Error::InvalidMessagesProof),
        Err(DispatchError::Module(Error::InvalidMessagesProof)),
    );
    assert_eq!(refused_as(Ok::<u8, &str>(3), Error::InvalidMessagesProof), Ok(3));
}

#[test]
fn delivery_weight_adds_the_dispatch_weight() {
    assert_eq!(delivery_weight(0), 0);
    assert_eq!(delivery_weight(17), 17);
    assert_eq!(delivery_weight(u64::MAX), u64::MAX);
}
