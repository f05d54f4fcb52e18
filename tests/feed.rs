use exchange_bot::feed::{
    handle_message, next_connection_state, BitrueSubscriber, ConnectionAction, ConnectionEvent, ConnectionState,
    FeedAction, FeedMessage, PingToken, Subscriber,
};
use exchange_bot::types::Exchange;
use std::io::Write;

fn levels(l: &[(&str, &str)]) -> Vec<(String, String)> {
    l.iter().map(|(p, a)| (p.to_string(), a.to_string())).collect()
}

#[test]
fn depth_frame_is_published() {
    let msg = FeedMessage::Depth {
        timestamp_ms: 1700000000000,
        bids: levels(&[("1.0", "2"), ("1.1", "1")]),
        asks: levels(&[("1.3", "1"), ("1.2", "4")]),
    };
    match handle_message(Exchange::Bitrue, msg) {
        FeedAction::Publish(st) => {
            assert_eq!(st.exchange, Exchange::Bitrue);
            assert_eq!(st.timestamp_ms, 1700000000000);
            assert_eq!(st.best_bid().unwrap().price.units(), 11000);
            assert_eq!(st.best_ask().unwrap().price.units(), 12000);
        }
        other => panic!("unexpected {other:?}"),
    }
}

#[test]
fn malformed_depth_frame_is_dropped() {
    let msg = FeedMessage::Depth { timestamp_ms: 0, bids: levels(&[("1.0", "-2")]), asks: Vec::new() };
    assert!(matches!(handle_message(Exchange::LBank, msg), FeedAction::Ignore));
}

#[test]
fn ping_is_answered_with_same_token() {
    match handle_message(Exchange::Bitrue, FeedMessage::Ping(PingToken::Number(17))) {
        FeedAction::Pong(t) => assert_eq!(t, PingToken::Number(17)),
        other => panic!("unexpected {other:?}"),
    }
    match handle_message(Exchange::LBank, FeedMessage::Ping(PingToken::Text("abc".to_string()))) {
        FeedAction::Pong(t) => assert_eq!(t, PingToken::Text("abc".to_string())),
        other => panic!("unexpected {other:?}"),
    }
    assert!(matches!(handle_message(Exchange::LBank, FeedMessage::Other), FeedAction::Ignore));
}

#[test]
fn connection_lifecycle() {
    let (s, a) = next_connection_state(ConnectionState::Disconnected, ConnectionEvent::Start);
    assert_eq!((s, a), (ConnectionState::Connecting, ConnectionAction::Connect));
    let (s, a) = next_connection_state(s, ConnectionEvent::ConnectFailed);
    assert_eq!((s, a), (ConnectionState::Connecting, ConnectionAction::Reconnect));
    let (s, a) = next_connection_state(s, ConnectionEvent::Connected);
    assert_eq!((s, a), (ConnectionState::Subscribed, ConnectionAction::SendSubscribe));
    let (s, a) = next_connection_state(s, ConnectionEvent::SocketClosed);
    assert_eq!((s, a), (ConnectionState::Connecting, ConnectionAction::Reconnect));
    let (s, a) = next_connection_state(s, ConnectionEvent::Shutdown);
    assert_eq!((s, a), (ConnectionState::Closed, ConnectionAction::Close));
    let (s, a) = next_connection_state(s, ConnectionEvent::Connected);
    assert_eq!((s, a), (ConnectionState::Closed, ConnectionAction::Wait));
}

#[test]
fn gzip_frame_text() {
    let mut enc = flate2::write::GzEncoder::new(Vec::new(), flate2::Compression::default());
    enc.write_all(b"{\"ping\":1}").unwrap();
    let bytes = enc.finish().unwrap();
    assert_eq!(BitrueSubscriber::frame_text(&bytes).as_deref(), Some("{\"ping\":1}"));
    assert_eq!(BitrueSubscriber::frame_text(&b"{\"ping\":1}".to_vec()), None);
}

#[test]
fn subscriber_keeps_venues() {
    let s = Subscriber::new(vec![Exchange::Bitrue, Exchange::LBank]);
    assert_eq!(s.exchanges(), &vec![Exchange::Bitrue, Exchange::LBank]);
}
