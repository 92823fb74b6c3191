//! Signed messages between agents: identities, the inbound filter, the durable queue, the bus and
//! the decisions of a node.
pub mod agent;
pub mod bus;
pub mod clock;
pub mod codec;
pub mod conversation;
pub mod crypto;
pub mod encoding;
pub mod hook;
pub mod identity;
pub mod inbox;
pub mod json;
pub mod lookup;
pub mod node;
pub mod outbox;
pub mod pick;
pub mod policy;
pub mod protocol;
pub mod queue;
pub mod record;
pub mod roster;
pub mod route;
pub mod store;
pub mod text;
pub mod wire;

pub use clock::now_ms;
