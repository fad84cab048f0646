use maximum_league::client::{client_not_found_message, request_failed_message};
use maximum_league::status::{status_from_probe, status_without_client};

#[test]
fn status_without_client_is_disconnected() {
    let s = status_without_client();
    assert!(!s.connected);
    assert_eq!(s.message, "League Client not found (no port/auth).");
    assert_eq!(s.port, None);
}

#[test]
fn status_is_connected_exactly_on_200() {
    let s = status_from_probe(5555, &Ok((200, "{}".to_string())));
    assert!(s.connected);
    assert_eq!(s.message, "Connected to League Client.");
    assert_eq!(s.port, Some(5555));
    let s = status_from_probe(5555, &Ok((401, String::new())));
    assert!(!s.connected);
    assert_eq!(s.message, "LCU returned status 401.");
    assert_eq!(s.port, Some(5555));
    let s = status_from_probe(5555, &Err("connection refused".to_string()));
    assert!(!s.connected);
    assert_eq!(s.message, "LCU request failed: connection refused");
    assert_eq!(s.port, Some(5555));
}

#[test]
fn messages() {
    assert_eq!(client_not_found_message(), "League Client not found.");
    assert_eq!(request_failed_message("timeout"), "LCU request failed: timeout");
}
