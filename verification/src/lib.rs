//! Module that allows sending and receiving messages using lane concept:
//!
//! 1) the message is sent using `send_message()` call;
//! 2) every outbound message is assigned nonce;
//! 3) the messages are stored in the storage;
//! 4) external component (relay) delivers messages to bridged chain;
//! 5) messages are processed in order (ordered by assigned nonce);
//! 6) relay may send proof-of-delivery back to this chain.
//!
//! Once message is sent, its progress can be tracked by looking at module events.
//! The assigned nonce is reported using `MessageAccepted` event. When message is
//! delivered to the bridged chain, it is reported using `MessagesDelivered` event.
//!
//! The calls stand in [`module`]. What the module is configured with stands in [`config`], what
//! it keeps in [`store`], what holds of the lanes as a whole in [`laws`], and what the calls do in
//! terms of what goes in and comes out in [`promises`].
pub mod codec;
pub mod config;
pub mod confirmation;
pub mod inbound_lane;
pub mod laws;
pub mod module;
pub mod outbound_lane;
pub mod primitives;
pub mod promises;
pub mod proved_messages;
pub mod receival;
pub mod runtime_storage;
pub mod store;

pub use config::Trait;
pub use module::Module;
