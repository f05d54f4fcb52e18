//! Market-data feeds: what a subscriber does with each decoded message, the
//! connection lifecycle of a feed, and the set of venues to subscribe to.

use vstd::prelude::*;

use crate::book::{text_level_ok, OrderbookState};
use crate::types::Exchange;

verus! {

/// Gzip-inflated text of a frame, when it is a gzip stream of UTF-8 text.
pub uninterp spec fn gunzip_text_of(bytes: Seq<u8>) -> Option<Seq<char>>;

/// Relies on flate2's `bufread::GzDecoder` and `Read::read_to_string`: the
/// inflated text depends on the bytes alone; `None` when they are not a gzip
/// stream of UTF-8 text.
#[verifier::external_body]
fn gunzip_text(bytes: &[u8]) -> (r: Option<String>)
    ensures
        r is Some == gunzip_text_of(bytes@) is Some,
        r matches Some(s) ==> s@ == gunzip_text_of(bytes@)->0,
{
    let mut text = String::new();
    match std::io::Read::read_to_string(&mut flate2::bufread::GzDecoder::new(bytes), &mut text) {
        Ok(_) => Some(text),
        Err(_) => None,
    }
}

/// The keep-alive token of a ping, echoed back in the pong.
#[derive(Clone, Debug, PartialEq, Eq)]
pub enum PingToken {
    Number(u64),
    Text(String),
}

/// A feed message after JSON decoding.
#[derive(Clone, Debug)]
pub enum FeedMessage {
    /// A depth frame: levels as (price, amount) text pairs.
    Depth { timestamp_ms: u64, bids: Vec<(String, String)>, asks: Vec<(String, String)> },
    Ping(PingToken),
    /// Anything else: acknowledgements, pongs, unknown shapes.
    Other,
}

/// What a subscriber does with one message.
#[derive(Clone, Debug)]
pub enum FeedAction {
    Publish(OrderbookState),
    Pong(PingToken),
    /// The message is dropped; a malformed depth frame ends here too.
    Ignore,
}

/// Decides what to do with a message from the feed of `exchange`: publish a
/// well-formed depth frame as a snapshot, answer a ping with the same token,
/// drop everything else.
pub fn handle_message(exchange: Exchange, message: FeedMessage) -> (r: FeedAction)
    ensures
        match message {
            FeedMessage::Depth { timestamp_ms, bids, asks } => {
                if (forall|i: int| 0 <= i < bids@.len() ==> text_level_ok(#[trigger] bids@[i]))
                    && (forall|i: int| 0 <= i < asks@.len() ==> text_level_ok(#[trigger] asks@[i])) {
                    r matches FeedAction::Publish(st) && st.wf() && st.exchange == exchange
                        && st.timestamp_ms == timestamp_ms
                        && crate::book::side_map(st.bids@) == crate::book::text_side_map(bids@)
                        && crate::book::side_map(st.asks@) == crate::book::text_side_map(asks@)
                } else {
                    r is Ignore
                }
            },
            FeedMessage::Ping(token) => r == FeedAction::Pong(token),
            FeedMessage::Other => r is Ignore,
        },
{
    match message {
        FeedMessage::Depth { timestamp_ms, bids, asks } => {
            match OrderbookState::from_text_levels(exchange, timestamp_ms, &bids, &asks) {
                Some(st) => FeedAction::Publish(st),
                None => FeedAction::Ignore,
            }
        },
        FeedMessage::Ping(token) => FeedAction::Pong(token),
        FeedMessage::Other => FeedAction::Ignore,
    }
}

/// Where a feed connection stands.
#[derive(Clone, Copy, Debug, PartialEq, Eq, Structural)]
pub enum ConnectionState {
    Disconnected,
    Connecting,
    Subscribed,
    Closed,
}

/// What happened to a feed connection.
#[derive(Clone, Copy, Debug, PartialEq, Eq, Structural)]
pub enum ConnectionEvent {
    Start,
    Connected,
    ConnectFailed,
    SocketClosed,
    Shutdown,
}

/// What the feed does next.
#[derive(Clone, Copy, Debug, PartialEq, Eq, Structural)]
pub enum ConnectionAction {
    Connect,
    SendSubscribe,
    Reconnect,
    Close,
    Wait,
}

/// The lifecycle `Disconnected -> Connecting -> Subscribed -> Closed`: a
/// failed connect or an unexpected close goes back to `Connecting` and tries
/// again; shutdown closes from any state, and nothing leaves `Closed`.
pub open spec fn connection_step(state: ConnectionState, event: ConnectionEvent) -> (ConnectionState, ConnectionAction) {
    match (state, event) {
        (ConnectionState::Closed, _) => (ConnectionState::Closed, ConnectionAction::Wait),
        (_, ConnectionEvent::Shutdown) => (ConnectionState::Closed, ConnectionAction::Close),
        (ConnectionState::Disconnected, ConnectionEvent::Start) => (ConnectionState::Connecting, ConnectionAction::Connect),
        (ConnectionState::Connecting, ConnectionEvent::Connected) => (ConnectionState::Subscribed, ConnectionAction::SendSubscribe),
        (ConnectionState::Connecting, ConnectionEvent::ConnectFailed) => (ConnectionState::Connecting, ConnectionAction::Reconnect),
        (ConnectionState::Subscribed, ConnectionEvent::SocketClosed) => (ConnectionState::Connecting, ConnectionAction::Reconnect),
        _ => (state, ConnectionAction::Wait),
    }
}

/// Advances a feed connection by one event.
pub fn next_connection_state(state: ConnectionState, event: ConnectionEvent) -> (r: (ConnectionState, ConnectionAction))
    ensures
        r == connection_step(state, event),
        state == ConnectionState::Closed ==> r.0 == ConnectionState::Closed,
        event == ConnectionEvent::Shutdown ==> r.0 == ConnectionState::Closed,
        r.0 == ConnectionState::Closed ==> state == ConnectionState::Closed || event == ConnectionEvent::Shutdown,
{
    match (state, event) {
        (ConnectionState::Closed, _) => (ConnectionState::Closed, ConnectionAction::Wait),
        (_, ConnectionEvent::Shutdown) => (ConnectionState::Closed, ConnectionAction::Close),
        (ConnectionState::Disconnected, ConnectionEvent::Start) => (ConnectionState::Connecting, ConnectionAction::Connect),
        (ConnectionState::Connecting, ConnectionEvent::Connected) => (ConnectionState::Subscribed, ConnectionAction::SendSubscribe),
        (ConnectionState::Connecting, ConnectionEvent::ConnectFailed) => (ConnectionState::Connecting, ConnectionAction::Reconnect),
        (ConnectionState::Subscribed, ConnectionEvent::SocketClosed) => (ConnectionState::Connecting, ConnectionAction::Reconnect),
        _ => (state, ConnectionAction::Wait),
    }
}

/// The Bitrue feed: gzip-compressed JSON frames.
#[derive(Default)]
pub struct BitrueSubscriber {}

impl BitrueSubscriber {
    /// The JSON text carried by a binary frame; `None` when the frame is not
    /// gzip-compressed UTF-8.
    pub fn frame_text(bytes: &Vec<u8>) -> (r: Option<String>)
        ensures
            r is Some == gunzip_text_of(bytes@) is Some,
            r matches Some(s) ==> s@ == gunzip_text_of(bytes@)->0,
    {
        gunzip_text(bytes.as_slice())
    }
}

/// The LBank feed: plain JSON text frames.
#[derive(Default)]
pub struct LBankSubscriber {}

/// Credentials for the LBank feed.
pub struct LBankConfig {
    pub api_key: String,
    pub secret_key: String,
}

/// The venues whose feeds run.
pub struct Subscriber {
    exchanges: Vec<Exchange>,
}

impl View for Subscriber {
    type V = Seq<Exchange>;

    closed spec fn view(&self) -> Seq<Exchange> {
        self.exchanges@
    }
}

impl Subscriber {
    pub fn new(exchanges: Vec<Exchange>) -> (r: Subscriber)
        ensures
            r@ == exchanges@,
    {
        Subscriber { exchanges }
    }

    pub fn exchanges(&self) -> (r: &Vec<Exchange>)
        ensures
            r@ == self@,
    {
        &self.exchanges
    }
}

} // verus!
