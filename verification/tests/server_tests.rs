//! The process-wide connection registry.

use rsmqtt_core::server::ConnectionsRegistry;

#[test]
fn at_most_one_holder_per_client_id() {
    let mut reg = ConnectionsRegistry::new();
    assert_eq!(reg.register(b"k", 1), None);
    assert_eq!(reg.len(), 1);
    // a second CONNECT under the same identifier displaces the first
    assert_eq!(reg.register(b"k", 2), Some(1));
    assert_eq!(reg.len(), 1);
    assert_eq!(reg.lookup(b"k"), Some(2));
}

#[test]
fn unregister_returns_the_token() {
    let mut reg = ConnectionsRegistry::new();
    reg.register(b"a", 7);
    reg.register(b"b", 8);
    assert_eq!(reg.unregister(b"a"), Some(7));
    assert_eq!(reg.unregister(b"a"), None);
    assert_eq!(reg.lookup(b"b"), Some(8));
    assert_eq!(reg.len(), 1);
}
