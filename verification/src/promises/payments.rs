//! What holds of payments and dispatches, one by one.
use crate::codec::DispatchMessage;
use crate::config::{dispatched, rewards_paid, MessageDeliveryAndDispatchPayment, MessageDispatch};
use crate::confirmation::{rewarded, rewarded_by_entry};
use crate::laws::delivered_by;
use crate::primitives::{InboundLaneState, LaneId, MessageKey, MessageNonce};
use crate::promises::lanes::{
    entries_follow_on, lemma_entries_ascend, reports_of_generated_messages_are_taken,
};
use crate::store::StoreContents;
use vstd::prelude::*;

verus! {

/// The payments lead from `before` to `after` by paying the rewards one by one, in order.
pub open spec fn pays_one_by_one<
    AccountId,
    Balance,
    Payment: MessageDeliveryAndDispatchPayment<AccountId, Balance>,
>(
    path: Seq<Payment>,
    before: Payment,
    confirmation_relayer: AccountId,
    rewards: Seq<(AccountId, Balance)>,
    after: Payment,
) -> bool {
    &&& path.len() == rewards.len() + 1
    &&& path[0] == before
    &&& path[rewards.len() as int] == after
    &&& forall|k: int|
        0 <= k < rewards.len() ==> Payment::reward_payment(
            path[k],
            confirmation_relayer,
            (#[trigger] rewards[k]).0,
            rewards[k].1,
            path[k + 1],
        )
}

/// Rewards are paid exactly if there is one payment for each of them, in order, and no other.
pub proof fn rewards_are_paid_one_by_one<
    AccountId,
    Balance,
    Payment: MessageDeliveryAndDispatchPayment<AccountId, Balance>,
>(
    before: Payment,
    confirmation_relayer: AccountId,
    rewards: Seq<(AccountId, Balance)>,
    after: Payment,
)
    ensures
        rewards_paid::<AccountId, Balance, Payment>(before, confirmation_relayer, rewards, after)
            <==> exists|path: Seq<Payment>| #[trigger]
            pays_one_by_one::<AccountId, Balance, Payment>(
                path,
                before,
                confirmation_relayer,
                rewards,
                after,
            ),
    decreases rewards.len(),
{
    if rewards.len() == 0 {
        if rewards_paid::<AccountId, Balance, Payment>(
            before,
            confirmation_relayer,
            rewards,
            after,
        ) {
            assert(pays_one_by_one::<AccountId, Balance, Payment>(
                seq![before],
                before,
                confirmation_relayer,
                rewards,
                after,
            ));
        }
    } else {
        let earlier = rewards.drop_last();
        let last = rewards.len() - 1;
        if rewards_paid::<AccountId, Balance, Payment>(
            before,
            confirmation_relayer,
            rewards,
            after,
        ) {
            let between = choose|between: Payment|
                {
                    &&& rewards_paid::<AccountId, Balance, Payment>(
                        before,
                        confirmation_relayer,
                        rewards.drop_last(),
                        between,
                    )
                    &&& #[trigger] Payment::reward_payment(
                        between,
                        confirmation_relayer,
                        rewards.last().0,
                        rewards.last().1,
                        after,
                    )
                };
            rewards_are_paid_one_by_one::<AccountId, Balance, Payment>(
                before,
                confirmation_relayer,
                earlier,
                between,
            );
            let path = choose|path: Seq<Payment>| #[trigger]
                pays_one_by_one::<AccountId, Balance, Payment>(
                    path,
                    before,
                    confirmation_relayer,
                    earlier,
                    between,
                );
            let longer = path.push(after);
            assert forall|k: int| 0 <= k < rewards.len() implies Payment::reward_payment(
                longer[k],
                confirmation_relayer,
                (#[trigger] rewards[k]).0,
                rewards[k].1,
                longer[k + 1],
            ) by {
                if k < last {
                    assert(earlier[k] == rewards[k]);
                }
            }
            assert(pays_one_by_one::<AccountId, Balance, Payment>(
                longer,
                before,
                confirmation_relayer,
                rewards,
                after,
            ));
        }
        if exists|path: Seq<Payment>| #[trigger]
            pays_one_by_one::<AccountId, Balance, Payment>(
                path,
                before,
                confirmation_relayer,
                rewards,
                after,
            ) {
            let path = choose|path: Seq<Payment>| #[trigger]
                pays_one_by_one::<AccountId, Balance, Payment>(
                    path,
                    before,
                    confirmation_relayer,
                    rewards,
                    after,
                );
            let shorter = path.drop_last();
            assert forall|k: int| 0 <= k < earlier.len() implies Payment::reward_payment(
                shorter[k],
                confirmation_relayer,
                (#[trigger] earlier[k]).0,
                earlier[k].1,
                shorter[k + 1],
            ) by {
                assert(earlier[k] == rewards[k]);
            }
            assert(pays_one_by_one::<AccountId, Balance, Payment>(
                shorter,
                before,
                confirmation_relayer,
                earlier,
                path[last],
            ));
            rewards_are_paid_one_by_one::<AccountId, Balance, Payment>(
                before,
                confirmation_relayer,
                earlier,
                path[last],
            );
            assert(rewards[last] == rewards.last());
            assert(Payment::reward_payment(
                path[last],
                confirmation_relayer,
                rewards.last().0,
                rewards.last().1,
                after,
            ));
        }
    }
}

/// The dispatch goes from `before` to `after` by dispatching the messages one by one, in order.
pub open spec fn dispatches_one_by_one<Fee, Dispatch: MessageDispatch<Fee>>(
    path: Seq<Dispatch>,
    before: Dispatch,
    messages: Seq<DispatchMessage<Dispatch::DispatchPayload, Fee>>,
    after: Dispatch,
) -> bool {
    &&& path.len() == messages.len() + 1
    &&& path[0] == before
    &&& path[messages.len() as int] == after
    &&& forall|k: int|
        0 <= k < messages.len() ==> Dispatch::dispatches(
            path[k],
            #[trigger] messages[k],
            path[k + 1],
        )
}

/// Messages are dispatched exactly if there is one dispatch for each of them, in order, and no
/// other.
pub proof fn messages_are_dispatched_one_by_one<Fee, Dispatch: MessageDispatch<Fee>>(
    before: Dispatch,
    messages: Seq<DispatchMessage<Dispatch::DispatchPayload, Fee>>,
    after: Dispatch,
)
    ensures
        dispatched::<Fee, Dispatch>(before, messages, after) <==> exists|path: Seq<Dispatch>|
            #[trigger]
            dispatches_one_by_one::<Fee, Dispatch>(path, before, messages, after),
    decreases messages.len(),
{
    if messages.len() == 0 {
        if dispatched::<Fee, Dispatch>(before, messages, after) {
            assert(dispatches_one_by_one::<Fee, Dispatch>(seq![before], before, messages, after));
        }
    } else {
        let earlier = messages.drop_last();
        let last = messages.len() - 1;
        if dispatched::<Fee, Dispatch>(before, messages, after) {
            let between = choose|between: Dispatch|
                {
                    &&& dispatched::<Fee, Dispatch>(before, messages.drop_last(), between)
                    &&& #[trigger] Dispatch::dispatches(between, messages.last(), after)
                };
            messages_are_dispatched_one_by_one::<Fee, Dispatch>(before, earlier, between);
            let path = choose|path: Seq<Dispatch>| #[trigger]
                dispatches_one_by_one::<Fee, Dispatch>(path, before, earlier, between);
            let longer = path.push(after);
            assert forall|k: int| 0 <= k < messages.len() implies Dispatch::dispatches(
                longer[k],
                #[trigger] messages[k],
                longer[k + 1],
            ) by {
                if k < last {
                    assert(earlier[k] == messages[k]);
                }
            }
            assert(dispatches_one_by_one::<Fee, Dispatch>(longer, before, messages, after));
        }
        if exists|path: Seq<Dispatch>| #[trigger]
            dispatches_one_by_one::<Fee, Dispatch>(path, before, messages, after) {
            let path = choose|path: Seq<Dispatch>| #[trigger]
                dispatches_one_by_one::<Fee, Dispatch>(path, before, messages, after);
            let shorter = path.drop_last();
            assert forall|k: int| 0 <= k < earlier.len() implies Dispatch::dispatches(
                shorter[k],
                #[trigger] earlier[k],
                shorter[k + 1],
            ) by {
                assert(earlier[k] == messages[k]);
            }
            assert(dispatches_one_by_one::<Fee, Dispatch>(shorter, before, earlier, path[last]));
            messages_are_dispatched_one_by_one::<Fee, Dispatch>(before, earlier, path[last]);
            assert(messages[last] == messages.last());
            assert(Dispatch::dispatches(path[last], messages.last(), after));
        }
    }
}

/// The entry at this place holds the nonce, and the nonce is in the range.
pub open spec fn entry_holds<AccountId>(
    relayers: Seq<(MessageNonce, MessageNonce, AccountId)>,
    range: (MessageNonce, MessageNonce),
    place: (int, MessageNonce),
) -> bool {
    &&& 0 <= place.0 < relayers.len()
    &&& relayers[place.0].0 <= place.1 <= relayers[place.0].1
    &&& range.0 <= place.1 <= range.1
}

/// The places are all pairs of an entry and a nonce of the range that the entry holds, each pair
/// once, entry by entry and nonce by nonce.
pub open spec fn lists_all_places<AccountId>(
    places: Seq<(int, MessageNonce)>,
    relayers: Seq<(MessageNonce, MessageNonce, AccountId)>,
    range: (MessageNonce, MessageNonce),
) -> bool {
    &&& forall|k: int| 0 <= k < places.len() ==> entry_holds(relayers, range, #[trigger] places[k])
    &&& forall|place: (int, MessageNonce)| #[trigger]
        entry_holds(relayers, range, place) ==> places.contains(place)
    &&& forall|j: int, k: int|
        0 <= j < k < places.len() ==> {
            ||| (#[trigger] places[j]).0 < (#[trigger] places[k]).0
            ||| places[j].0 == places[k].0 && places[j].1 < places[k].1
        }
}

/// Every entry is rewarded for each message of the range that it holds, once, and for no other:
/// entry by entry and nonce by nonce.
pub proof fn entries_are_rewarded_for_what_they_hold<AccountId>(
    relayers: Seq<(MessageNonce, MessageNonce, AccountId)>,
    range: (MessageNonce, MessageNonce),
) -> (places: Seq<(int, MessageNonce)>)
    ensures
        lists_all_places(places, relayers, range),
        rewarded(relayers, range).len() == places.len(),
        forall|k: int|
            0 <= k < places.len() ==> #[trigger] rewarded(relayers, range)[k] == (
                relayers[places[k].0].2,
                places[k].1,
            ),
    decreases relayers.len(),
{
    if relayers.len() == 0 {
        Seq::empty()
    } else {
        let earlier = entries_are_rewarded_for_what_they_hold(relayers.drop_last(), range);
        let last = relayers.len() - 1;
        let entry = relayers[last];
        let now = rewarded_by_entry(entry, range);
        let before = rewarded(relayers.drop_last(), range);
        let places = earlier + Seq::new(now.len(), |i: int| (last, now[i].1));
        let all = rewarded(relayers, range);
        assert forall|k: int| 0 <= k < places.len() implies entry_holds(
            relayers,
            range,
            #[trigger] places[k],
        ) && all[k] == (relayers[places[k].0].2, places[k].1) by {
            if k < earlier.len() {
                assert(places[k] == earlier[k]);
                assert(entry_holds(relayers.drop_last(), range, earlier[k]));
                assert(before[k] == (relayers.drop_last()[earlier[k].0].2, earlier[k].1));
            } else {
                assert(places[k] == (last, now[k - earlier.len()].1));
            }
        }
        assert forall|k: int| 0 <= k < places.len() implies #[trigger] all[k] == (
            relayers[places[k].0].2,
            places[k].1,
        ) by {
            assert(entry_holds(relayers, range, places[k]));
        }
        assert forall|place: (int, MessageNonce)| #[trigger]
            entry_holds(relayers, range, place) implies places.contains(place) by {
            if place.0 < last {
                assert(entry_holds(relayers.drop_last(), range, place));
                let k = choose|k: int| 0 <= k < earlier.len() && earlier[k] == place;
                assert(places[k] == place);
            } else {
                let begin = if entry.0 >= range.0 {
                    entry.0
                } else {
                    range.0
                };
                let k = earlier.len() + (place.1 - begin);
                assert(places[k] == place);
            }
        }
        assert forall|j: int, k: int| 0 <= j < k < places.len() implies {
            ||| (#[trigger] places[j]).0 < (#[trigger] places[k]).0
            ||| places[j].0 == places[k].0 && places[j].1 < places[k].1
        } by {
            if j < earlier.len() {
                assert(places[j] == earlier[j]);
                assert(entry_holds(relayers.drop_last(), range, earlier[j]));
                if k < earlier.len() {
                    assert(places[k] == earlier[k]);
                }
            }
        }
        places
    }
}

/// Entries that follow on and begin early enough are rewarded for every message of the range, in the
/// order of the nonces, each message once.
pub proof fn lemma_rewards_in_order<AccountId>(
    lane: InboundLaneState<AccountId>,
    begin: MessageNonce,
    n: int,
)
    requires
        entries_follow_on(lane),
        0 < n <= lane.relayers.len(),
        lane.relayers[0].0 <= begin,
    ensures
        ({
            let paid = rewarded(lane.relayers.take(n), (begin, lane.latest_received_nonce));
            let end = lane.relayers[n - 1].1;
            &&& paid.len() == if begin <= end {
                end - begin + 1
            } else {
                0
            }
            &&& forall|k: int|
                0 <= k < paid.len() ==> (#[trigger] paid[k]).1 == begin + k && delivered_by(
                    lane,
                    paid[k].1,
                    paid[k].0,
                )
        }),
    decreases n,
{
    let range = (begin, lane.latest_received_nonce);
    let entry = lane.relayers[n - 1];
    let earlier = lane.relayers.take(n - 1);
    let before = rewarded(earlier, range);
    let paid = rewarded(lane.relayers.take(n), range);
    let now = rewarded_by_entry(entry, range);
    assert(lane.relayers.take(n).drop_last() =~= earlier);
    assert(lane.relayers.take(n).last() == entry);
    assert(entry.0 <= entry.1);
    if n > 1 {
        lemma_rewards_in_order(lane, begin, n - 1);
        assert(lane.relayers[n - 2].1 + 1 == entry.0);
    } else {
        assert(before.len() == 0);
    }
    if n < lane.relayers.len() {
        lemma_entries_ascend(lane, n - 1, lane.relayers.len() - 1);
        assert(lane.relayers[lane.relayers.len() - 1].0 <= lane.relayers[lane.relayers.len()
            - 1].1);
    }
    assert forall|k: int| 0 <= k < paid.len() implies (#[trigger] paid[k]).1 == begin + k
        && delivered_by(lane, paid[k].1, paid[k].0) by {
        if k < before.len() {
            assert(paid[k] == before[k]);
        } else {
            assert(paid[k] == now[k - before.len()]);
            assert(lane.relayers[n - 1].0 <= paid[k].1 <= lane.relayers[n - 1].1);
        }
    }
}

/// The rewards are the fees that are queued under the nonces, to those who have made the
/// deliveries; all deliveries are queued if each of them is.
pub proof fn rewards_are_the_queued_fees<RelayerId, Fee, AccountId>(
    contents: StoreContents<RelayerId, Fee>,
    lane_id: LaneId,
    deliveries: Seq<(AccountId, MessageNonce)>,
)
    ensures
        contents.rewards(lane_id, deliveries).len() == deliveries.len(),
        forall|k: int|
            0 <= k < deliveries.len() ==> #[trigger] contents.rewards(lane_id, deliveries)[k] == (
                deliveries[k].0,
                contents.outbound_messages[MessageKey { lane_id, nonce: deliveries[k].1 }].fee,
            ),
        contents.deliveries_queued(lane_id, deliveries) <==> forall|k: int|
            0 <= k < deliveries.len() ==> contents.outbound_messages.contains_key(
                MessageKey { lane_id, nonce: (#[trigger] deliveries[k]).1 },
            ),
{
}

/// A report is covered exactly if it is not taken, or if every message that it reports and one of
/// its entries holds is queued.
pub proof fn reports_are_covered_by_the_queue<RelayerId, Fee, AccountId>(
    contents: StoreContents<RelayerId, Fee>,
    lane_id: LaneId,
    lane: InboundLaneState<AccountId>,
)
    ensures
        contents.report_covered(lane_id, lane) <==> {
            let before = contents.outbound_lane(lane_id);
            before.latest_received_nonce < lane.latest_received_nonce
                <= before.latest_generated_nonce ==> forall|i: int, nonce: MessageNonce|
                0 <= i < lane.relayers.len() && (#[trigger] lane.relayers[i]).0 <= nonce
                    <= lane.relayers[i].1 && before.latest_received_nonce < nonce
                    <= lane.latest_received_nonce ==> #[trigger]
                contents.outbound_messages.contains_key(MessageKey { lane_id, nonce })
        },
{
    reports_of_generated_messages_are_taken(contents, lane_id, lane.latest_received_nonce);
    let before = contents.outbound_lane(lane_id);
    if before.latest_received_nonce < lane.latest_received_nonce <= before.latest_generated_nonce {
        let range = contents.received_range(lane_id, lane.latest_received_nonce);
        let deliveries = rewarded(lane.relayers, range);
        let places = entries_are_rewarded_for_what_they_hold(lane.relayers, range);
        if contents.report_covered(lane_id, lane) {
            assert forall|i: int, nonce: MessageNonce|
                0 <= i < lane.relayers.len() && (#[trigger] lane.relayers[i]).0 <= nonce
                    <= lane.relayers[i].1 && before.latest_received_nonce < nonce
                    <= lane.latest_received_nonce implies #[trigger]
                contents.outbound_messages.contains_key(MessageKey { lane_id, nonce }) by {
                assert(entry_holds(lane.relayers, range, (i, nonce)));
                let k = choose|k: int| 0 <= k < places.len() && places[k] == (i, nonce);
                assert(deliveries[k].1 == nonce);
            }
        } else {
            let k = choose|k: int|
                0 <= k < deliveries.len() && !contents.outbound_messages.contains_key(
                    MessageKey { lane_id, nonce: (#[trigger] deliveries[k]).1 },
                );
            assert(entry_holds(lane.relayers, range, places[k]));
            assert(deliveries[k] == (lane.relayers[places[k].0].2, places[k].1));
        }
    }
}

} // verus!
