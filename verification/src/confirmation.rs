//! Confirmation of deliveries, and the rewards of the relayers that have made them.
use crate::config::{rewards_paid, MessageDeliveryAndDispatchPayment};
use crate::outbound_lane::OutboundLane;
use crate::primitives::{InboundLaneState, LaneId, MessageKey, MessageNonce};
use crate::runtime_storage::RuntimeOutboundLaneStorage;
use crate::store::{Store, StoreContents};
use std::collections::VecDeque;
use vstd::prelude::*;

verus! {

/// The greater of the nonces.
pub open spec fn later(a: MessageNonce, b: MessageNonce) -> MessageNonce {
    if a >= b {
        a
    } else {
        b
    }
}

/// The lesser of the nonces.
pub open spec fn earlier(a: MessageNonce, b: MessageNonce) -> MessageNonce {
    if a <= b {
        a
    } else {
        b
    }
}

/// Messages of the entry whose delivery has just been confirmed, each with the relayer of the
/// entry, in the order of their nonces.
pub open spec fn rewarded_by_entry<AccountId>(
    entry: (MessageNonce, MessageNonce, AccountId),
    received_range: (MessageNonce, MessageNonce),
) -> Seq<(AccountId, MessageNonce)> {
    let begin = later(entry.0, received_range.0);
    let end = earlier(entry.1, received_range.1);
    let count = if begin <= end {
        (end - begin + 1) as nat
    } else {
        0
    };
    Seq::new(count, |i: int| (entry.2, (begin + i) as MessageNonce))
}

/// Messages whose delivery is rewarded, each with the relayer that gets the reward, entry by
/// entry.
pub open spec fn rewarded<AccountId>(
    relayers: Seq<(MessageNonce, MessageNonce, AccountId)>,
    received_range: (MessageNonce, MessageNonce),
) -> Seq<(AccountId, MessageNonce)>
    decreases relayers.len(),
{
    if relayers.len() == 0 {
        Seq::empty()
    } else {
        rewarded(relayers.drop_last(), received_range) + rewarded_by_entry(
            relayers.last(),
            received_range,
        )
    }
}

impl<RelayerId, Fee> StoreContents<RelayerId, Fee> {
    /// Rewards for the deliveries: each relayer gets the fees of its messages.
    pub open spec fn rewards<AccountId>(
        self,
        lane_id: LaneId,
        deliveries: Seq<(AccountId, MessageNonce)>,
    ) -> Seq<(AccountId, Fee)> {
        Seq::new(
            deliveries.len(),
            |i: int|
                (
                    deliveries[i].0,
                    self.outbound_messages[MessageKey { lane_id, nonce: deliveries[i].1 }].fee,
                ),
        )
    }

    /// Nonces of the messages whose receival is news when the receival of all messages up to the
    /// nonce is reported: the first one and the last one.
    pub open spec fn received_range(
        self,
        lane_id: LaneId,
        latest_received_nonce: MessageNonce,
    ) -> (MessageNonce, MessageNonce) {
        (
            (self.outbound_lane(lane_id).latest_received_nonce + 1) as MessageNonce,
            latest_received_nonce,
        )
    }

    /// All messages of the deliveries are queued.
    pub open spec fn deliveries_queued<AccountId>(
        self,
        lane_id: LaneId,
        deliveries: Seq<(AccountId, MessageNonce)>,
    ) -> bool {
        forall|i: int|
            0 <= i < deliveries.len() ==> self.outbound_messages.contains_key(
                MessageKey { lane_id, nonce: (#[trigger] deliveries[i]).1 },
            )
    }

    /// Every message that is rewarded when the lane is reported in this state is queued.
    pub open spec fn report_covered<AccountId>(
        self,
        lane_id: LaneId,
        lane: InboundLaneState<AccountId>,
    ) -> bool {
        self.outbound_lane(lane_id).can_confirm(lane.latest_received_nonce)
            ==> self.deliveries_queued(
            lane_id,
            rewarded(
                lane.relayers,
                self.received_range(lane_id, lane.latest_received_nonce),
            ),
        )
    }
}

/// What an entry brings is a part of what all entries bring.
proof fn lemma_deliveries_of_entry<RelayerId, Fee, AccountId>(
    contents: StoreContents<RelayerId, Fee>,
    lane_id: LaneId,
    relayers: Seq<(MessageNonce, MessageNonce, AccountId)>,
    received_range: (MessageNonce, MessageNonce),
    i: int,
)
    requires
        0 <= i < relayers.len(),
        contents.deliveries_queued(lane_id, rewarded(relayers, received_range)),
    ensures
        contents.deliveries_queued(lane_id, rewarded_by_entry(relayers[i], received_range)),
    decreases relayers.len(),
{
    let all = rewarded(relayers, received_range);
    let earlier_deliveries = rewarded(relayers.drop_last(), received_range);
    if i == relayers.len() - 1 {
        let deliveries = rewarded_by_entry(relayers[i], received_range);
        assert forall|j: int| 0 <= j < deliveries.len() implies
            contents.outbound_messages.contains_key(
            MessageKey { lane_id, nonce: (#[trigger] deliveries[j]).1 },
        ) by {
            assert(all[earlier_deliveries.len() + j] == deliveries[j]);
        }
    } else {
        assert forall|j: int| 0 <= j < earlier_deliveries.len() implies
            contents.outbound_messages.contains_key(
            MessageKey { lane_id, nonce: (#[trigger] earlier_deliveries[j]).1 },
        ) by {
            assert(all[j] == earlier_deliveries[j]);
        }
        lemma_deliveries_of_entry(
            contents,
            lane_id,
            relayers.drop_last(),
            received_range,
            i,
        );
    }
}

/// Creates new outbound lane object.
pub fn outbound_lane(lane_id: LaneId) -> (lane: OutboundLane)
    ensures
        lane.storage.lane_id == lane_id,
{
    OutboundLane::new(RuntimeOutboundLaneStorage { lane_id })
}

/// Paying rewards and then more rewards is paying all of them.
pub proof fn payments_add_up<
    AccountId,
    Balance,
    Payment: MessageDeliveryAndDispatchPayment<AccountId, Balance>,
>(
    before: Payment,
    confirmation_relayer: AccountId,
    first: Seq<(AccountId, Balance)>,
    between: Payment,
    second: Seq<(AccountId, Balance)>,
    after: Payment,
)
    requires
        rewards_paid::<AccountId, Balance, Payment>(before, confirmation_relayer, first, between),
        rewards_paid::<AccountId, Balance, Payment>(between, confirmation_relayer, second, after),
    ensures
        rewards_paid::<AccountId, Balance, Payment>(
            before,
            confirmation_relayer,
            first + second,
            after,
        ),
    decreases second.len(),
{
    if second.len() == 0 {
        assert(first + second =~= first);
    } else {
        let last = choose|last: Payment|
            {
                &&& rewards_paid::<AccountId, Balance, Payment>(
                    between,
                    confirmation_relayer,
                    second.drop_last(),
                    last,
                )
                &&& #[trigger] Payment::reward_payment(
                    last,
                    confirmation_relayer,
                    second.last().0,
                    second.last().1,
                    after,
                )
            };
        payments_add_up::<AccountId, Balance, Payment>(
            before,
            confirmation_relayer,
            first,
            between,
            second.drop_last(),
            last,
        );
        assert((first + second).drop_last() =~= first + second.drop_last());
        assert((first + second).last() == second.last());
    }
}

/// Rewards the relayer of the entry for those of its messages whose delivery has just been
/// confirmed.
pub fn reward_relayer<
    S: Store,
    AccountId,
    Payment: MessageDeliveryAndDispatchPayment<AccountId, S::Fee>,
>(
    store: &S,
    payment: &mut Payment,
    confirmation_relayer: &AccountId,
    lane_id: LaneId,
    entry: &(MessageNonce, MessageNonce, AccountId),
    received_range: (MessageNonce, MessageNonce),
)
    requires
        store.contents().deliveries_queued(lane_id, rewarded_by_entry(*entry, received_range)),
    ensures
        rewards_paid::<AccountId, S::Fee, Payment>(
            *old(payment),
            *confirmation_relayer,
            store.contents().rewards(lane_id, rewarded_by_entry(*entry, received_range)),
            *final(payment),
        ),
{
    let nonce_begin: MessageNonce = if entry.0 >= received_range.0 {
        entry.0
    } else {
        received_range.0
    };
    let nonce_end: MessageNonce = if entry.1 <= received_range.1 {
        entry.1
    } else {
        received_range.1
    };
    let ghost contents = store.contents();
    let ghost deliveries = rewarded_by_entry(*entry, received_range);
    let ghost first_payment = *payment;
    // the entry brings nothing if it is ahead of the received range (begin > end)
    let mut nonce: MessageNonce = nonce_begin;
    let mut is_done = nonce_begin > nonce_end;
    assert(contents.rewards(lane_id, deliveries.take(0)) =~= Seq::<(AccountId, S::Fee)>::empty());
    while !is_done
        invariant
            contents == store.contents(),
            contents.deliveries_queued(lane_id, deliveries),
            deliveries == rewarded_by_entry(*entry, received_range),
            nonce_begin == later(entry.0, received_range.0),
            nonce_end == earlier(entry.1, received_range.1),
            !is_done ==> nonce_begin <= nonce <= nonce_end,
            rewards_paid::<AccountId, S::Fee, Payment>(
                first_payment,
                *confirmation_relayer,
                contents.rewards(
                    lane_id,
                    if is_done {
                        deliveries
                    } else {
                        deliveries.take(nonce - nonce_begin)
                    },
                ),
                *payment,
            ),
        decreases
                (if is_done {
                    0
                } else {
                    nonce_end - nonce + 1
                }),
    {
        let ghost i = nonce - nonce_begin;
        let ghost between = *payment;
        let ghost key = MessageKey { lane_id, nonce };
        // the message has just been confirmed, and unconfirmed messages are never pruned
        if let Some(message_data) = store.outbound_message(MessageKey { lane_id, nonce }) {
            payment.pay_relayer_reward(confirmation_relayer, &entry.2, &message_data.fee);
        } else {
            assert(deliveries[i].1 == nonce);
        }
        proof {
            let before = contents.rewards(lane_id, deliveries.take(i));
            let now = contents.rewards(lane_id, deliveries.take(i + 1));
            assert(now.drop_last() =~= before);
            assert(now.last() == (entry.2, contents.outbound_messages[key].fee));
            assert(Payment::reward_payment(
                between,
                *confirmation_relayer,
                now.last().0,
                now.last().1,
                *payment,
            ));
            assert(rewards_paid::<AccountId, S::Fee, Payment>(
                first_payment,
                *confirmation_relayer,
                now,
                *payment,
            ));
        }
        if nonce == nonce_end {
            is_done = true;
            assert(deliveries.take(i + 1) =~= deliveries);
        } else {
            nonce += 1;
            assert(nonce - nonce_begin == i + 1);
        }
    }
}

/// Rewards the relayers of all entries for those of their messages whose delivery has just been
/// confirmed.
pub fn reward_relayers<
    S: Store,
    AccountId,
    Payment: MessageDeliveryAndDispatchPayment<AccountId, S::Fee>,
>(
    store: &S,
    payment: &mut Payment,
    confirmation_relayer: &AccountId,
    lane_id: LaneId,
    relayers: &VecDeque<(MessageNonce, MessageNonce, AccountId)>,
    received_range: (MessageNonce, MessageNonce),
)
    requires
        store.contents().deliveries_queued(lane_id, rewarded(relayers@, received_range)),
    ensures
        rewards_paid::<AccountId, S::Fee, Payment>(
            *old(payment),
            *confirmation_relayer,
            store.contents().rewards(lane_id, rewarded(relayers@, received_range)),
            *final(payment),
        ),
{
    let ghost contents = store.contents();
    let ghost first_payment = *payment;
    let mut i: usize = 0;
    assert(contents.rewards(lane_id, rewarded(relayers@.take(0), received_range)) =~= Seq::<
        (AccountId, S::Fee),
    >::empty());
    while i < relayers.len()
        invariant
            contents == store.contents(),
            contents.deliveries_queued(lane_id, rewarded(relayers@, received_range)),
            i <= relayers@.len(),
            rewards_paid::<AccountId, S::Fee, Payment>(
                first_payment,
                *confirmation_relayer,
                contents.rewards(lane_id, rewarded(relayers@.take(i as int), received_range)),
                *payment,
            ),
        decreases relayers@.len() - i,
    {
        let ghost between = *payment;
        let entry = &relayers[i];
        proof {
            lemma_deliveries_of_entry(contents, lane_id, relayers@, received_range, i as int);
        }
        reward_relayer(
            store,
            payment,
            confirmation_relayer,
            lane_id,
            entry,
            received_range,
        );
        proof {
            let earlier_deliveries = rewarded(relayers@.take(i as int), received_range);
            let deliveries = rewarded_by_entry(*entry, received_range);
            assert(relayers@.take(i + 1).drop_last() =~= relayers@.take(i as int));
            assert(contents.rewards(lane_id, earlier_deliveries + deliveries) =~= contents.rewards(
                lane_id,
                earlier_deliveries,
            ) + contents.rewards(lane_id, deliveries));
            payments_add_up::<AccountId, S::Fee, Payment>(
                first_payment,
                *confirmation_relayer,
                contents.rewards(lane_id, earlier_deliveries),
                between,
                contents.rewards(lane_id, deliveries),
                *payment,
            );
        }
        i += 1;
    }
    assert(relayers@.take(i as int) =~= relayers@);
}

/// Tells whether the messages of the entry that its relayer would be rewarded for are all queued.
pub fn entry_is_queued<S: Store, AccountId>(
    store: &S,
    lane_id: LaneId,
    entry: &(MessageNonce, MessageNonce, AccountId),
    received_range: (MessageNonce, MessageNonce),
) -> (is_queued: bool)
    ensures
        is_queued == store.contents().deliveries_queued(
            lane_id,
            rewarded_by_entry(*entry, received_range),
        ),
{
    let nonce_begin: MessageNonce = if entry.0 >= received_range.0 {
        entry.0
    } else {
        received_range.0
    };
    let nonce_end: MessageNonce = if entry.1 <= received_range.1 {
        entry.1
    } else {
        received_range.1
    };
    if nonce_begin > nonce_end {
        return true;
    }
    let ghost deliveries = rewarded_by_entry(*entry, received_range);
    let mut nonce: MessageNonce = nonce_begin;
    loop
        invariant
            deliveries == rewarded_by_entry(*entry, received_range),
            nonce_begin == later(entry.0, received_range.0),
            nonce_end == earlier(entry.1, received_range.1),
            nonce_begin <= nonce <= nonce_end,
            forall|i: int|
                0 <= i < nonce - nonce_begin
                    ==> store.contents().outbound_messages.contains_key(
                    MessageKey { lane_id, nonce: (#[trigger] deliveries[i]).1 },
                ),
        decreases nonce_end - nonce,
    {
        assert(deliveries[nonce - nonce_begin].1 == nonce);
        if store.outbound_message(MessageKey { lane_id, nonce }).is_none() {
            return false;
        }
        if nonce == nonce_end {
            return true;
        }
        nonce += 1;
    }
}

/// Tells whether the messages that the relayers of the entries would be rewarded for are all
/// queued.
pub fn deliveries_are_queued<S: Store, AccountId>(
    store: &S,
    lane_id: LaneId,
    relayers: &VecDeque<(MessageNonce, MessageNonce, AccountId)>,
    received_range: (MessageNonce, MessageNonce),
) -> (are_queued: bool)
    ensures
        are_queued == store.contents().deliveries_queued(
            lane_id,
            rewarded(relayers@, received_range),
        ),
{
    let ghost contents = store.contents();
    let mut i: usize = 0;
    while i < relayers.len()
        invariant
            contents == store.contents(),
            i <= relayers@.len(),
            contents.deliveries_queued(
                lane_id,
                rewarded(relayers@.take(i as int), received_range),
            ),
        decreases relayers@.len() - i,
    {
        let entry = &relayers[i];
        let is_queued = entry_is_queued(store, lane_id, entry, received_range);
        proof {
            if is_queued {
                let before = rewarded(relayers@.take(i as int), received_range);
                let deliveries = rewarded_by_entry(*entry, received_range);
                let after = rewarded(relayers@.take(i + 1), received_range);
                assert(relayers@.take(i + 1).drop_last() =~= relayers@.take(i as int));
                assert forall|j: int| 0 <= j < after.len() implies
                    contents.outbound_messages.contains_key(
                    MessageKey { lane_id, nonce: (#[trigger] after[j]).1 },
                ) by {
                    if j < before.len() {
                        assert(after[j] == before[j]);
                    } else {
                        assert(after[j] == deliveries[j - before.len()]);
                    }
                }
            } else if contents.deliveries_queued(lane_id, rewarded(relayers@, received_range)) {
                lemma_deliveries_of_entry(contents, lane_id, relayers@, received_range, i as int);
            }
        }
        if !is_queued {
            return false;
        }
        i += 1;
    }
    assert(relayers@.take(i as int) =~= relayers@);
    true
}

} // verus!
