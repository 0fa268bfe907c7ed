use std::sync::mpsc::channel;

use wsq::Error;
use wsq::Event;
use wsq::ServerCore;

#[test]
fn try_pop_on_empty_stream_is_not_an_error() {
    let (_tx, rx) = channel::<Event<u64>>();
    let mut core = ServerCore::from_receiver(rx);
    assert!(matches!(core.try_pop(), Ok(None)));
    // Repeated calls on an empty stream have no side effect.
    assert!(matches!(core.try_pop(), Ok(None)));
}

#[test]
fn try_pop_registers_pending_accepts_without_data() {
    let (tx, rx) = channel::<Event<u64>>();
    let mut core = ServerCore::from_receiver(rx);
    tx.send(Event::Conn { id: 1, handle: 9 }).unwrap();
    tx.send(Event::Conn { id: 2, handle: 8 }).unwrap();
    assert!(matches!(core.try_pop(), Ok(None)));
    // Both accept events were absorbed into the registry, not lost.
    assert_eq!(core.get(1), Some(&9));
    assert_eq!(core.get(2), Some(&8));
}

#[test]
fn registration_happens_before_data_delivery() {
    let (tx, rx) = channel::<Event<u64>>();
    let mut core = ServerCore::from_receiver(rx);
    tx.send(Event::Conn { id: 1, handle: 9 }).unwrap();
    tx.send(Event::Data { id: 1, bytes: b"7".to_vec() }).unwrap();
    let (id, v) = core.pop().unwrap();
    assert_eq!((id, v), (1, 7));
    // The sender's identity was registered before its data came out.
    assert_eq!(core.get(1), Some(&9));
}

#[test]
fn per_connection_fifo_order_is_kept() {
    let (tx, rx) = channel::<Event<u64>>();
    let mut core = ServerCore::from_receiver(rx);
    tx.send(Event::Conn { id: 1, handle: 9 }).unwrap();
    tx.send(Event::Data { id: 1, bytes: b"1".to_vec() }).unwrap();
    tx.send(Event::Data { id: 1, bytes: b"2".to_vec() }).unwrap();
    assert_eq!(core.pop().unwrap(), (1, 1));
    assert_eq!(core.pop().unwrap(), (1, 2));
}

#[test]
fn interleaved_accepts_do_not_reorder_data() {
    let (tx, rx) = channel::<Event<u64>>();
    let mut core = ServerCore::from_receiver(rx);
    tx.send(Event::Conn { id: 1, handle: 9 }).unwrap();
    tx.send(Event::Data { id: 1, bytes: b"10".to_vec() }).unwrap();
    tx.send(Event::Conn { id: 2, handle: 8 }).unwrap();
    tx.send(Event::Data { id: 2, bytes: b"20".to_vec() }).unwrap();
    assert_eq!(core.pop().unwrap(), (1, 10));
    assert_eq!(core.pop().unwrap(), (2, 20));
    assert_eq!(core.get(1), Some(&9));
    assert_eq!(core.get(2), Some(&8));
}

#[test]
fn malformed_payload_is_a_serde_error() {
    let (tx, rx) = channel::<Event<u64>>();
    let mut core = ServerCore::from_receiver(rx);
    tx.send(Event::Conn { id: 1, handle: 9 }).unwrap();
    tx.send(Event::Data { id: 1, bytes: b"not json".to_vec() }).unwrap();
    let r = core.pop();
    assert!(matches!(r, Err(Error::Serde(_))));
}

#[test]
fn closed_stream_is_disconnected_for_try_pop() {
    let (tx, rx) = channel::<Event<u64>>();
    let mut core = ServerCore::from_receiver(rx);
    drop(tx);
    assert!(matches!(core.try_pop(), Err(Error::Disconnected)));
}

#[test]
fn closed_stream_is_disconnected_for_pop() {
    let (tx, rx) = channel::<Event<u64>>();
    let mut core = ServerCore::from_receiver(rx);
    drop(tx);
    assert!(matches!(core.pop(), Err(Error::Disconnected)));
}

#[test]
fn pending_data_survives_a_closed_stream() {
    let (tx, rx) = channel::<Event<u64>>();
    let mut core = ServerCore::from_receiver(rx);
    tx.send(Event::Conn { id: 1, handle: 9 }).unwrap();
    tx.send(Event::Data { id: 1, bytes: b"3".to_vec() }).unwrap();
    drop(tx);
    assert_eq!(core.pop().unwrap(), (1, 3));
    assert!(matches!(core.pop(), Err(Error::Disconnected)));
}

#[test]
fn accepts_in_order_make_identities_one_two_three() {
    // The server side of the connect scenario: three connections accepted in
    // order carry identities 1, 2 and 3; the first connection's payload is
    // delivered tagged with identity 1.
    let (tx, rx) = channel::<Event<u64>>();
    let mut ids = wsq::IdentityCounter::new();
    let mut core = ServerCore::from_receiver(rx);
    for handle in [100, 200, 300] {
        assert!(ids.has_next());
        let id = ids.fresh();
        tx.send(Event::Conn { id, handle }).unwrap();
    }
    tx.send(Event::Data { id: 1, bytes: b"1".to_vec() }).unwrap();
    assert_eq!(core.pop().unwrap(), (1, 1));
    let mut seen = core.ids();
    seen.sort();
    assert_eq!(seen, vec![1, 2, 3]);
    assert_eq!(core.get(1), Some(&100));
    assert_eq!(core.get(2), Some(&200));
    assert_eq!(core.get(3), Some(&300));
}
