//! A typed message queue layered on persistent websocket connections.
//!
//! A server accepts many client connections and exposes addressed push,
//! broadcast, and pop over a single ordered event stream; a client wraps one
//! outbound connection with push and pop. Payloads cross the wire as JSON.

mod client;
mod codec;
mod error;
mod event;
mod registry;
mod server;
mod transport;

pub use crate::client::ClientQueue;
pub use crate::codec::encode_decode;
pub use crate::codec::json_bytes_of;
pub use crate::codec::u64_of_json;
pub use crate::error::Error;
pub use crate::event::Event;
pub use crate::registry::Registry;
pub use crate::server::failed_of;
pub use crate::server::IdentityCounter;
pub use crate::server::ServerCore;
pub use crate::server::ServerQueue;
