use wsq::Error;
use wsq::IdentityCounter;
use wsq::Registry;
use wsq::ServerCore;

#[test]
fn empty_registry_has_nothing() {
    let r: Registry<u64> = Registry::new();
    assert!(r.get(1).is_none());
    assert_eq!(r.ids(), Vec::<u64>::new());
}

#[test]
fn insert_then_get() {
    let mut r: Registry<u64> = Registry::new();
    r.insert(1, 7);
    r.insert(2, 8);
    assert_eq!(r.get(1), Some(&7));
    assert_eq!(r.get(2), Some(&8));
    assert!(r.get(3).is_none());
}

#[test]
fn insert_overwrites() {
    let mut r: Registry<u64> = Registry::new();
    r.insert(1, 7);
    r.insert(1, 8);
    assert_eq!(r.get(1), Some(&8));
    assert_eq!(r.ids(), vec![1]);
}

#[test]
fn ids_lists_each_identity_once() {
    let mut r: Registry<u64> = Registry::new();
    r.insert(3, 30);
    r.insert(1, 10);
    r.insert(2, 20);
    let mut ids = r.ids();
    ids.sort();
    assert_eq!(ids, vec![1, 2, 3]);
}

#[test]
fn identities_start_at_one_and_increase() {
    let mut c = IdentityCounter::new();
    assert!(c.has_next());
    assert_eq!(c.fresh(), 1);
    assert_eq!(c.fresh(), 2);
    assert_eq!(c.fresh(), 3);
}

#[test]
fn failed_of_keeps_exactly_the_failures() {
    let ids = vec![1, 2, 3];
    let ok = vec![true, false, true];
    assert_eq!(wsq::failed_of(&ids, &ok), vec![2]);
    // The same outcomes reported again name the same identity: nothing is
    // pruned between attempts.
    assert_eq!(wsq::failed_of(&ids, &ok), vec![2]);
}

#[test]
fn failed_of_orders_by_attempt() {
    let ids = vec![5, 9, 4, 7];
    let ok = vec![false, true, false, false];
    assert_eq!(wsq::failed_of(&ids, &ok), vec![5, 4, 7]);
}

#[test]
fn error_shape_helpers() {
    assert!(Error::Disconnected.is_disconnected());
    assert!(!Error::Disconnected.is_io());
    assert!(Error::Io(String::from("x")).is_io());
    assert!(Error::Serde(String::from("x")).is_serde());
}

#[test]
fn push_to_unknown_identity_is_disconnected() {
    let (_tx, rx) = std::sync::mpsc::channel::<wsq::Event<ws::Sender>>();
    let mut srv = wsq::ServerQueue::from_receiver(rx);
    let r = srv.push((999999, 1));
    assert!(matches!(r, Err(Error::Disconnected)));
    // No side effect on the registry: the same push fails identically.
    let r = srv.push((999999, 1));
    assert!(matches!(r, Err(Error::Disconnected)));
}

#[test]
fn push_all_on_empty_server_fails_nowhere() {
    let (_tx, rx) = std::sync::mpsc::channel::<wsq::Event<ws::Sender>>();
    let mut srv = wsq::ServerQueue::from_receiver(rx);
    let failed = srv.push_all(5).unwrap();
    assert_eq!(failed, Vec::<u64>::new());
}

#[test]
fn core_get_before_any_event() {
    let (_tx, rx) = std::sync::mpsc::channel::<wsq::Event<u64>>();
    let core: ServerCore<u64> = ServerCore::from_receiver(rx);
    assert!(core.get(1).is_none());
}
