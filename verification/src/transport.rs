use vstd::prelude::*;

use crate::error::Error;

verus! {

/// Declares std::sync::mpsc::Receiver, the consumer end of the event
/// channel, as an opaque outside type.
#[verifier::external_type_specification]
#[verifier::external_body]
#[verifier::reject_recursive_types(T)]
pub struct ExReceiver<T>(std::sync::mpsc::Receiver<T>);

/// Declares ws::Sender, the send handle of one websocket connection, as an
/// opaque outside type.
#[verifier::external_type_specification]
#[verifier::external_body]
pub struct ExWsSender(ws::Sender);

/// Relies on std::sync::mpsc::Receiver::recv: blocks until a value arrives
/// and hands it over, or reports that every producer is gone and no further
/// value can come, a terminal condition. Which of the two happens depends
/// on the producers, so nothing is promised of the outcome beyond the shape
/// of the error.
#[verifier::external_body]
pub(crate) fn recv_from<T>(rx: &std::sync::mpsc::Receiver<T>) -> (r: Result<T, Error>)
    ensures
        r matches Err(e) ==> e is Disconnected,
{
    match rx.recv() {
        Ok(v) => Ok(v),
        Err(std::sync::mpsc::RecvError) => Err(Error::Disconnected),
    }
}

/// Relies on std::sync::mpsc::Receiver::try_recv: hands over a value that
/// already arrived, reports emptiness without blocking, or reports that
/// every producer is gone.
#[verifier::external_body]
pub(crate) fn try_recv_from<T>(rx: &std::sync::mpsc::Receiver<T>) -> (r: Result<
    Option<T>,
    Error,
>)
    ensures
        r matches Err(e) ==> e is Disconnected,
{
    match rx.try_recv() {
        Ok(v) => Ok(Some(v)),
        Err(std::sync::mpsc::TryRecvError::Empty) => Ok(None),
        Err(std::sync::mpsc::TryRecvError::Disconnected) => Err(Error::Disconnected),
    }
}

/// Relies on ws::Sender::send: hands one binary frame to the connection's
/// event loop. Whether the frame is accepted depends on the state of the
/// connection, so nothing is promised of the outcome beyond the shape of
/// the error.
#[verifier::external_body]
pub(crate) fn ws_send(out: &ws::Sender, bytes: Vec<u8>) -> (r: Result<(), Error>)
    ensures
        r matches Err(e) ==> e is Io,
{
    match out.send(bytes) {
        Ok(()) => Ok(()),
        Err(e) => Err(Error::Io(format!("{}", e))),
    }
}

} // verus!
