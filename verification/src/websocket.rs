//! The websocket of a map page: what is done with each message of the
//! client, when the connection is given up, and what is pushed to it.

use vstd::prelude::*;
use crate::quake::QuakeList;

verus! {

/// New quakes pushed to a subscriber.
pub struct CacheUpdates(pub QuakeList);

/// Seconds between two pings to the client.
pub const HEARTBEAT_INTERVAL_SECS: u64 = 5;

/// Seconds without a sign of the client after which the connection is given up.
pub const CLIENT_TIMEOUT_SECS: u64 = 10;

/// A message from the client, or a failure of the protocol.
pub enum WsEvent {
    Ping(Vec<u8>),
    Pong,
    Text(String),
    Binary,
    Close,
    Continuation,
    Nop,
    ProtocolError,
}

/// What is done on a client message: whether the client is known to be
/// alive from now on, what is answered, and whether the connection ends.
pub struct WsReaction {
    pub alive: bool,
    pub pong: Option<Vec<u8>>,
    pub stop: bool,
}

/// A ping is answered with a pong carrying its payload; pings and pongs
/// show that the client is alive; text and binary messages are only
/// noted; a close, and anything else, ends the connection.
pub fn react(event: WsEvent) -> (r: WsReaction)
    ensures
        r.alive == (event is Ping || event is Pong),
        match event {
            WsEvent::Ping(payload) => r.pong == Some(payload),
            _ => r.pong is None,
        },
        r.stop == !(event is Ping || event is Pong || event is Text || event is Binary),
{
    match event {
        WsEvent::Ping(payload) => WsReaction { alive: true, pong: Some(payload), stop: false },
        WsEvent::Pong => WsReaction { alive: true, pong: None, stop: false },
        WsEvent::Text(_) => WsReaction { alive: false, pong: None, stop: false },
        WsEvent::Binary => WsReaction { alive: false, pong: None, stop: false },
        _ => WsReaction { alive: false, pong: None, stop: true },
    }
}

/// What the heartbeat does: give the connection up or ping the client.
#[derive(Clone, Copy, Debug, PartialEq, Eq, Structural)]
pub enum Heartbeat {
    Stop,
    Ping,
}

/// On each heartbeat: where more than `CLIENT_TIMEOUT_SECS` have passed
/// since the client was last seen alive (`secs` seconds and `nanos`
/// nanoseconds), the connection is given up; else the client is pinged.
pub fn heartbeat(secs: u64, nanos: u32) -> (h: Heartbeat)
    requires
        nanos < 1_000_000_000,
    ensures
        h == (if secs * 1_000_000_000 + nanos > CLIENT_TIMEOUT_SECS * 1_000_000_000 {
            Heartbeat::Stop
        } else {
            Heartbeat::Ping
        }),
{
    if secs > CLIENT_TIMEOUT_SECS || (secs == CLIENT_TIMEOUT_SECS && nanos > 0) {
        Heartbeat::Stop
    } else {
        Heartbeat::Ping
    }
}

} // verus!
