//! The events that the parts of the application send to its main loop.

use vstd::prelude::*;
use crate::json::Real;
use crate::models::{IncomingConnection, ReceiverStats};

verus! {

/// What has happened.
#[derive(Debug)]
pub enum Event {
    /// The group is up on this interface and sources can find it.
    AdvertisingStarted { group_interface: String },
    /// The group is down.
    AdvertisingStopped,
    /// The group could not be brought up.
    AdvertisingError(String),
    /// A source has connected.
    ConnectionReceived(IncomingConnection),
    /// The source has gone.
    ConnectionLost,
    /// The connection failed.
    ConnectionError(String),
    /// A PIN is to be shown.
    PinDisplay { pin: String, peer_info: String },
    /// The stream runs.
    StreamStarted,
    /// The stream has ended.
    StreamStopped(ReceiverStats),
    /// The stream failed.
    StreamError(String),
    /// New numbers of the running stream.
    StatsUpdated(StreamStats),
    /// The size of the picture has changed.
    ResolutionChanged { width: u32, height: u32 },
}

/// The numbers of the running stream.
#[derive(Debug)]
pub struct StreamStats {
    pub bitrate: Real,
    pub peak_bitrate: Real,
    pub frames_decoded: i64,
    pub frames_dropped: i64,
    pub resolution: (u32, u32),
    pub data_received: i64,
    pub duration: i64,
}

} // verus!
