//! Transport edge logic: framing, acknowledgements, dial targets,
//! bootstrap lines, form decoding, lifecycle, and peer tracking.

use tor_messenger::config;
use tor_messenger::logview::LogType;
use tor_messenger::peer::PeerManager;
use tor_messenger::storage::MessageStorage;
use tor_messenger::transport::{
    build_http_response, contains_bytes, is_http_frame, is_ok_response, lifecycle_step,
    parse_bootstrap_line, percent_decode, route_http, split_host_port, HttpRoute,
    LifecycleAction, TransportEvent, TransportState,
};

#[test]
fn frame_classification() {
    assert!(is_http_frame(&b"GET / HTTP/1.1\r\n".to_vec()));
    assert!(is_http_frame(&b"POST /send HTTP/1.1\r\n".to_vec()));
    assert!(is_http_frame(&b"HEAD / HTTP/1.1\r\n".to_vec()));
    assert!(!is_http_frame(&b"GETX".to_vec()));
    assert!(!is_http_frame(&b"{\"id\":\"x\"}".to_vec()));
    assert!(!is_http_frame(&b"".to_vec()));
}

#[test]
fn acknowledgement_check() {
    assert!(is_ok_response(&b"OK\n".to_vec()));
    assert!(is_ok_response(&b"  OK ".to_vec()));
    assert!(is_ok_response(&b"OK".to_vec()));
    assert!(!is_ok_response(&b"NO".to_vec()));
    assert!(!is_ok_response(&b"OKAY".to_vec()));
    assert!(!is_ok_response(&b"".to_vec()));
}

#[test]
fn dial_target_split() {
    let (h, p) = split_host_port("abcdef.onion");
    assert_eq!(h, "abcdef.onion");
    assert_eq!(p, config::HIDDEN_SERVICE_VIRTUAL_PORT);
    let (h, p) = split_host_port("abcdef.onion:9000");
    assert_eq!(h, "abcdef.onion");
    assert_eq!(p, 9000);
    // An unusable port falls back to the virtual port.
    let (h, p) = split_host_port("abcdef.onion:99999");
    assert_eq!(h, "abcdef.onion");
    assert_eq!(p, config::HIDDEN_SERVICE_VIRTUAL_PORT);
    let (h, p) = split_host_port("abcdef.onion:");
    assert_eq!(h, "abcdef.onion");
    assert_eq!(p, config::HIDDEN_SERVICE_VIRTUAL_PORT);
    // Only the last colon splits.
    let (h, p) = split_host_port("a:b:70");
    assert_eq!(h, "a:b");
    assert_eq!(p, 70);
}

#[test]
fn bootstrap_lines() {
    let r = parse_bootstrap_line(
        "May 01 12:00:00.000 [notice] Bootstrapped 75% (loading_descriptors): Loading relay descriptors",
    );
    let (pct, phase) = r.unwrap();
    assert_eq!(pct, 75);
    assert_eq!(phase, "loading_descriptors");

    let r = parse_bootstrap_line("Bootstrapped 100%: Done");
    let (pct, phase) = r.unwrap();
    assert_eq!(pct, 100);
    assert_eq!(phase, "Connecting");

    assert!(parse_bootstrap_line("nothing to see").is_none());
    assert!(parse_bootstrap_line("Bootstrapped x%").is_none());
}

#[test]
fn form_value_decoding() {
    assert_eq!(percent_decode(&b"a%20b".to_vec()).unwrap(), b"a b".to_vec());
    assert_eq!(percent_decode(&b"plain".to_vec()).unwrap(), b"plain".to_vec());
    assert_eq!(percent_decode(&b"%41%42".to_vec()).unwrap(), b"AB".to_vec());
    assert!(percent_decode(&b"%zz".to_vec()).is_none());
    assert!(percent_decode(&b"trailing%2".to_vec()).is_none());
}

#[test]
fn lifecycle_transitions() {
    assert_eq!(
        lifecycle_step(TransportState::Stopped, TransportEvent::StartRequested),
        (TransportState::Starting, Some(LifecycleAction::BeginStartup))
    );
    assert_eq!(
        lifecycle_step(TransportState::Starting, TransportEvent::HostnameRead),
        (TransportState::Running, Some(LifecycleAction::PublishAddress))
    );
    assert_eq!(
        lifecycle_step(TransportState::Running, TransportEvent::StopRequested),
        (TransportState::Stopped, Some(LifecycleAction::Shutdown))
    );
    assert_eq!(
        lifecycle_step(TransportState::Stopped, TransportEvent::HostnameRead),
        (TransportState::Stopped, None)
    );
    assert_eq!(
        lifecycle_step(TransportState::Running, TransportEvent::StartRequested),
        (TransportState::Running, None)
    );
}

#[test]
fn peer_presence_tracking() {
    let store = MessageStorage::new().unwrap();
    let mut pm = PeerManager::new(store);
    pm.add_peer("addr1", Some("nick"), None).unwrap();
    assert!(pm.get_peer("addr1").unwrap().is_some());
    assert!(!pm.is_peer_online("addr1"));
    pm.mark_peer_online("addr1", None);
    assert!(pm.is_peer_online("addr1"));
    assert_eq!(pm.get_online_peers(), vec!["addr1".to_string()]);
    pm.mark_peer_online("addr1", None);
    assert_eq!(pm.get_online_peers().len(), 1);
    pm.disconnect_peer("addr1");
    assert!(!pm.is_peer_online("addr1"));
    pm.mark_peer_online("addr1", None);
    pm.remove_peer("addr1").unwrap();
    assert!(pm.get_peer("addr1").unwrap().is_none());
    assert!(!pm.is_peer_online("addr1"));
    assert!(!pm.update_peer_key("addr1", "k").unwrap());
}

#[test]
fn http_routing_and_responses() {
    assert_eq!(route_http("POST", "/send"), HttpRoute::PostSend);
    assert_eq!(route_http("POST", "/send?x=1"), HttpRoute::PostSend);
    assert_eq!(route_http("GET", "/send"), HttpRoute::MainPage);
    assert_eq!(route_http("GET", "/sent"), HttpRoute::SentPage);
    assert_eq!(route_http("GET", "/"), HttpRoute::MainPage);
    assert!(contains_bytes(&b"hello world".to_vec(), &b"o w".to_vec()));
    assert!(!contains_bytes(&b"hello".to_vec(), &b"xyz".to_vec()));
    let resp = build_http_response("<p>hi</p>", "200 OK");
    let text = String::from_utf8(resp).unwrap();
    assert_eq!(
        text,
        "HTTP/1.1 200 OK\r\nContent-Type: text/html; charset=utf-8\r\nContent-Length: 9\r\nConnection: close\r\n\r\n<p>hi</p>"
    );
}

#[test]
fn config_paths_and_log_prefixes() {
    assert_eq!(config::db_path("/home/u/.tm"), "/home/u/.tm/messages.db");
    assert_eq!(config::log_file("/home/u/.tm"), "/home/u/.tm/app.log");
    assert_eq!(config::db_file_name(), "messages.db");
    assert_eq!(LogType::System.prefix(), "[SYS]");
    assert_eq!(LogType::Error.prefix(), "[ERR]");
    assert_eq!(LogType::Sent.prefix(), "[>]");
}
