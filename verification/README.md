# Message lanes

A module that sends messages to a bridged chain and receives messages from it, over lanes. Every
outbound message gets a nonce and stays queued until its delivery has been confirmed; inbound
messages are dispatched in the order of their nonces; relayers that deliver messages are rewarded
with the fees of the messages.

The library is verified with Verus.

- `src/module.rs`: the calls `send_message`, `receive_messages_proof` and
  `receive_messages_delivery_proof`.
- `src/config.rs`: the configuration trait and the services that the module calls. A service says
  in a relation which outcomes a call may have; by default every outcome is allowed.
- `src/store.rs`, `src/runtime_storage.rs`: the storage, as a whole and lane by lane.
- `src/outbound_lane.rs`, `src/inbound_lane.rs`: single lanes.
- `src/proved_messages.rs`, `src/receival.rs`: messages that a proof delivers.
- `src/confirmation.rs`: confirmed deliveries and their rewards.
- `src/codec.rs`: payloads and their bytes.
- `src/laws.rs`: what holds of the lanes as a whole.
- `app/`: the module in a FRAME runtime.

Lane identifiers are numbers; `app/` reads them from the four bytes of a FRAME lane identifier, the
most significant byte first, which keeps their order.
