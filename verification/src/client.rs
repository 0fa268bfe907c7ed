use vstd::prelude::*;

use crate::codec::decode_u64;
use crate::codec::encode_u64;
use crate::codec::json_bytes_of;
use crate::codec::u64_of_json;
use crate::error::Error;
use crate::transport::recv_from;
use crate::transport::try_recv_from;
use crate::transport::ws_send;

verus! {

/// A client-side queue endpoint: one outbound websocket connection wrapped
/// with push and pop. The connection's handler delivers inbound frames on
/// `rx`; `out` is the connection's send handle. What arrives on `rx` is
/// decided by the peer, so the pop contracts promise only the shape of each
/// outcome; the codec itself is pinned down by its own contracts.
pub struct ClientQueue {
    rx: std::sync::mpsc::Receiver<Vec<u8>>,
    out: ws::Sender,
}

impl ClientQueue {
    /// A client endpoint over an established connection: the receiving end
    /// of the frame channel its handler fills, and its send handle.
    pub fn from_parts(rx: std::sync::mpsc::Receiver<Vec<u8>>, out: ws::Sender) -> Self {
        ClientQueue { rx, out }
    }

    fn push_raw(&self, bytes: Vec<u8>) -> (r: Result<(), Error>)
        ensures
            r matches Err(e) ==> e is Io,
    {
        ws_send(&self.out, bytes)
    }

    fn pop_raw(&self) -> (r: Result<Vec<u8>, Error>)
        ensures
            r matches Err(e) ==> e is Disconnected,
    {
        recv_from(&self.rx)
    }

    fn try_pop_raw(&self) -> (r: Result<Option<Vec<u8>>, Error>)
        ensures
            r matches Err(e) ==> e is Disconnected,
    {
        try_recv_from(&self.rx)
    }

    /// Encode the item and hand the frame to the connection. Whether the
    /// transport accepts it depends on the connection's state alone:
    /// encoding an integer never fails. The frame that leaves is the item's
    /// JSON text, so a pop of that frame decodes back to the item.
    pub fn push(&self, item: u64) -> (r: Result<(), Error>)
        ensures
            r matches Err(e) ==> e is Io,
            u64_of_json(json_bytes_of(item)) == Some(item),
    {
        let bytes = encode_u64(item);
        self.push_raw(bytes)
    }

    /// Block until a frame arrives and decode it. A frame that is not a
    /// JSON integer is reported as `Serde`; a channel closed with no data
    /// pending as the terminal `Disconnected`.
    pub fn pop(&self) -> (r: Result<u64, Error>)
        ensures
            r matches Err(e) ==> e is Disconnected || e is Serde,
    {
        match self.pop_raw() {
            Ok(bytes) => decode_u64(&bytes),
            Err(e) => Err(e),
        }
    }

    /// Decode a pending frame if one has already arrived. Emptiness is
    /// reported as success with no value, not as an error.
    pub fn try_pop(&self) -> (r: Result<Option<u64>, Error>)
        ensures
            r matches Err(e) ==> e is Disconnected || e is Serde,
    {
        match self.try_pop_raw() {
            Ok(Some(bytes)) => match decode_u64(&bytes) {
                Ok(v) => Ok(Some(v)),
                Err(e) => Err(e),
            },
            Ok(None) => Ok(None),
            Err(e) => Err(e),
        }
    }
}

} // verus!
