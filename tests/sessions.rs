use quote_stream::protocol::ClientSubscription;
use quote_stream::registry::{ClientManager, SessionIds, FIRST_SESSION_ID};

fn sub(id: usize) -> ClientSubscription {
    ClientSubscription::new(id, "127.0.0.1:1".to_string(), "udp://127.0.0.1:34254/".to_string(), vec![])
}

#[test]
fn session_ids_start_at_1000_and_increase() {
    let mut ids = SessionIds::new();
    let a = ids.gen_id().unwrap();
    let b = ids.gen_id().unwrap();
    let c = ids.gen_id().unwrap();
    assert_eq!(a, FIRST_SESSION_ID);
    assert_eq!(a, 1000);
    assert!(a < b && b < c);
}

#[test]
fn session_ids_run_out() {
    let mut ids = SessionIds { next: usize::MAX };
    assert_eq!(ids.gen_id(), None);
    assert_eq!(ids.next, usize::MAX);
}

#[test]
fn duplicate_id_keeps_first() {
    let mut m: ClientManager<&str> = ClientManager::new();
    assert!(m.add_client(sub(1000), "first").is_ok());
    assert!(m.add_client(sub(1000), "second").is_err());
    assert_eq!(m.clients.len(), 1);
    assert_eq!(m.handle(1000), Some(&"first"));
    let reply = m.start_session(sub(1000), "third");
    assert_eq!(reply.to_string(), "OK|stream started");
    assert_eq!(m.handle(1000), Some(&"first"));
}

#[test]
fn cancel_without_subscription() {
    let mut m: ClientManager<u8> = ClientManager::new();
    let (reply, removed) = m.cancel_session(1234);
    assert_eq!(reply.to_string(), "OK|canceled");
    assert!(removed.is_none());
}

#[test]
fn cancel_removes_subscription() {
    let mut m: ClientManager<u8> = ClientManager::new();
    m.start_session(sub(1000), 1);
    m.start_session(sub(1001), 2);
    assert_eq!(m.snapshot_active(), vec![1000, 1001]);
    let (reply, removed) = m.cancel_session(1000);
    assert_eq!(reply.to_string(), "OK|canceled");
    assert_eq!(removed.unwrap().handle, 1);
    assert!(!m.id_exists(1000));
    assert!(m.id_exists(1001));
    assert_eq!(m.snapshot_active(), vec![1001]);
}

#[test]
fn remove_missing_is_an_error() {
    let mut m: ClientManager<u8> = ClientManager::new();
    assert!(m.remove_client(5).is_err());
}

#[test]
fn shutdown_stops_everyone() {
    let mut m: ClientManager<u8> = ClientManager::new();
    m.start_session(sub(1000), 1);
    m.start_session(sub(1001), 2);
    m.stop_all();
    assert!(m.clients.iter().all(|e| e.stopped));
    assert!(m.snapshot_active().is_empty());
    assert!(m.id_exists(1000) && m.id_exists(1001));
}

#[test]
fn stream_stores_active_entry_and_cancel_keeps_others() {
    let mut m: ClientManager<u8> = ClientManager::new();
    m.start_session(sub(1000), 1);
    assert_eq!(m.clients.len(), 1);
    assert!(!m.clients[0].stopped);
    assert_eq!(m.clients[0].sub.unique_id, 1000);
    m.start_session(sub(1001), 2);
    m.start_session(sub(1002), 3);
    let (_, removed) = m.cancel_session(1001);
    assert_eq!(removed.unwrap().handle, 2);
    let left: Vec<(usize, u8, bool)> =
        m.clients.iter().map(|e| (e.sub.unique_id, e.handle, e.stopped)).collect();
    assert_eq!(left, vec![(1000, 1, false), (1002, 3, false)]);
    let (_, none) = m.cancel_session(1001);
    assert!(none.is_none());
    assert_eq!(m.clients.len(), 2);
}
