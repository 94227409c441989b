use clewdr::connection::{is_event_stream, ConnectionInfo, ConnectionRegistry};

#[test]
fn register_lookup_and_unregister() {
    let mut reg = ConnectionRegistry::new();
    let info = ConnectionInfo::new(Some("1.2.3.4:80".into()), 1000);
    let id = info.id;
    reg.register_connection(info);
    assert_eq!(reg.active_connection_count(), 1);
    let got = reg.get_connection(id).unwrap();
    assert_eq!(got.remote_addr.as_deref(), Some("1.2.3.4:80"));
    assert_eq!(got.duration(1500), 500);
    assert_eq!(got.duration(10), 0);
    reg.unregister_connection(id);
    assert_eq!(reg.active_connection_count(), 0);
    assert!(reg.get_connection(id).is_none());
    assert!(!reg.cancel_connection(id));
}

#[test]
fn unregister_keeps_token_alive_and_complete_cancels() {
    let mut reg = ConnectionRegistry::new();
    let a = ConnectionInfo::new(None, 0);
    let b = ConnectionInfo::new(None, 0);
    let (ta, tb) = (a.cancel_token.clone(), b.cancel_token.clone());
    let (ida, idb) = (a.id, b.id);
    reg.register_connection(a);
    reg.register_connection(b);
    let removed = reg.complete_request(ida, true).unwrap();
    assert_eq!(removed.id, ida);
    assert!(!ta.is_cancelled());
    assert!(reg.complete_request(idb, false).is_some());
    assert!(tb.is_cancelled());
    assert!(reg.complete_request(idb, false).is_none());
    assert_eq!(reg.active_connection_count(), 0);
}

#[test]
fn cancel_all_then_sweep() {
    let mut reg = ConnectionRegistry::new();
    let infos: Vec<ConnectionInfo> = (0..3).map(|_| ConnectionInfo::new(None, 0)).collect();
    let tokens: Vec<_> = infos.iter().map(|i| i.cancel_token.clone()).collect();
    for i in infos {
        reg.register_connection(i);
    }
    assert_eq!(reg.get_all_connections().len(), 3);
    reg.cleanup_cancelled_connections();
    assert_eq!(reg.active_connection_count(), 3);
    reg.cancel_all_connections();
    assert!(tokens.iter().all(|t| t.is_cancelled()));
    reg.cleanup_cancelled_connections();
    assert_eq!(reg.active_connection_count(), 0);
}

#[test]
fn request_counter_counts() {
    let mut info = ConnectionInfo::new(None, 0);
    assert_eq!(info.get_request_count(), 0);
    assert_eq!(info.increment_request_count(), 1);
    assert_eq!(info.increment_request_count(), 2);
    assert_eq!(info.get_request_count(), 2);
}

#[test]
fn registering_same_id_replaces() {
    let mut reg = ConnectionRegistry::new();
    let a = ConnectionInfo::new(None, 0);
    let again = a.share();
    reg.register_connection(a);
    reg.register_connection(again);
    assert_eq!(reg.active_connection_count(), 1);
}

#[test]
fn event_stream_content_type() {
    assert!(is_event_stream("text/event-stream"));
    assert!(is_event_stream("text/event-stream; charset=utf-8"));
    assert!(!is_event_stream("application/json"));
    assert!(!is_event_stream(""));
}
