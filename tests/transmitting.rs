use quote_stream::pinger::{PingAction, Pinger, PING_INTERVAL_MS};
use quote_stream::transmitter::{is_ping, is_ping_text, Transmitter, PING_TIMEOUT_MS};

fn payload(ticker: &str) -> String {
    format!(
        "{{\"ticker\":\"{}\",\"price\":100.0,\"volume\":1000,\"timestamp\":1,\"transaction\":\"buy\"}}",
        ticker
    )
}

fn filter(list: &[&str]) -> Vec<String> {
    list.iter().map(|s| s.to_string()).collect()
}

#[test]
fn stream_sends_json_when_all() {
    let t = Transmitter::new(vec![], 0, PING_TIMEOUT_MS);
    assert!(t.on_quote(&payload("AAPL")));
}

#[test]
fn stream_filters_unmatched_ticker() {
    let t = Transmitter::new(filter(&["AAPL"]), 0, PING_TIMEOUT_MS);
    assert!(!t.on_quote(&payload("MSFT")));
    assert!(t.on_quote(&payload("AAPL")));
}

#[test]
fn filter_of_two_tickers() {
    let t = Transmitter::new(filter(&["AAPL", "TSLA"]), 0, PING_TIMEOUT_MS);
    assert!(t.on_quote(&payload("AAPL")));
    assert!(t.on_quote(&payload("TSLA")));
    assert!(!t.on_quote(&payload("MSFT")));
    assert!(!t.on_quote("not json"));
    assert!(!t.on_quote("{\"price\":1.0}"));
}

#[test]
fn ping_texts() {
    assert!(is_ping_text("Ping"));
    assert!(is_ping_text("  PING\n"));
    assert!(is_ping_text("ping"));
    assert!(!is_ping_text("pong"));
    assert!(!is_ping_text("pi ng"));
    assert!(is_ping(b"Ping"));
    assert!(!is_ping(b"\xffPing"));
}

#[test]
fn liveness_timeout_stops() {
    let mut t = Transmitter::new(vec![], 1_000, PING_TIMEOUT_MS);
    assert!(t.check(1_000 + PING_TIMEOUT_MS, false));
    assert!(!t.check(1_000 + PING_TIMEOUT_MS + 1, false));
    assert!(t.done);
    assert!(!t.on_quote(&payload("AAPL")));
    t.on_datagram(7_000, b"Ping");
    assert!(!t.check(7_000, false));
}

#[test]
fn pings_keep_alive() {
    let mut t = Transmitter::new(vec![], 0, PING_TIMEOUT_MS);
    t.on_datagram(4_000, b"Ping");
    assert_eq!(t.last_ping_ms, 4_000);
    assert!(t.check(8_000, false));
    t.on_datagram(8_500, b"hello");
    assert_eq!(t.last_ping_ms, 4_000);
    assert!(!t.check(9_001, false));
}

#[test]
fn cancel_stops_flow() {
    let mut t = Transmitter::new(vec![], 0, PING_TIMEOUT_MS);
    assert!(t.on_quote(&payload("AAPL")));
    assert!(!t.check(10, true));
    assert!(!t.on_quote(&payload("AAPL")));
    assert!(!t.check(20, false));
}

#[test]
fn order_of_inbox_is_kept() {
    let t = Transmitter::new(filter(&["AAPL", "TSLA"]), 0, PING_TIMEOUT_MS);
    let inbox = vec![payload("AAPL"), payload("MSFT"), payload("TSLA"), payload("AAPL")];
    let sent: Vec<&String> = inbox.iter().filter(|p| t.on_quote(p)).collect();
    assert_eq!(sent, vec![&inbox[0], &inbox[2], &inbox[3]]);
}

#[test]
fn sends_ticker_given_reading() {
    let t = Transmitter::new(filter(&["AAPL"]), 0, PING_TIMEOUT_MS);
    assert!(t.sends_ticker(&Some("AAPL".to_string())));
    assert!(!t.sends_ticker(&Some("MSFT".to_string())));
    assert!(!t.sends_ticker(&None));
    let all = Transmitter::new(vec![], 0, PING_TIMEOUT_MS);
    assert!(all.sends_ticker(&None));
}

#[test]
fn ping_schedule_and_peer() {
    let mut p: Pinger<u16> = Pinger::new(0, PING_INTERVAL_MS);
    assert!(matches!(p.step(2_500), PingAction::Wait));
    assert_eq!(p.last_ms, 2_500);
    p.learn_peer(1111);
    p.learn_peer(2222);
    assert_eq!(p.peer, Some(1111));
    assert!(matches!(p.step(3_000), PingAction::Wait));
    assert!(matches!(p.step(4_500), PingAction::Send(1111)));
    assert_eq!(p.last_ms, 4_500);
}
