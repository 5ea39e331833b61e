//! Reception of a stream: the RTSP session with the source, the media pipeline
//! and the watch over the running stream.

pub mod laws;
pub mod monitor;
pub mod pipeline;
pub mod session;

use vstd::prelude::*;
use crate::models::{
    named_source, IncomingConnection, ReceiverStats, SourceInfo, SourceModel, Timestamp,
};
use crate::receiver::monitor::{
    build_stats, is_clock_time, seconds_between, session_numbers, Counters,
};
use crate::receiver::session::{Session, SessionModel, Stage};

verus! {

/// The receiver: how it receives, whether it does, and from whom.
#[derive(Debug)]
pub struct MiracastReceiver {
    pub rtsp_port: u16,
    pub rtp_port: i64,
    pub headless: bool,
    pub audio_enabled: bool,
    pub max_resolution: (u32, u32),
    pub running: bool,
    pub source: Option<SourceInfo>,
    pub start_time: Option<Timestamp>,
    pub video_codec: String,
    pub audio_codec: String,
}

/// The receiver as contracts see it: what changes while it works.
pub struct ReceiverModel {
    pub rtp_port: int,
    pub running: bool,
    pub source: Option<SourceModel>,
    pub start_time: Option<Timestamp>,
    pub video_codec: Seq<char>,
    pub audio_codec: Seq<char>,
}

impl View for MiracastReceiver {
    type V = ReceiverModel;

    open spec fn view(&self) -> ReceiverModel {
        ReceiverModel {
            rtp_port: self.rtp_port as int,
            running: self.running,
            source: match self.source {
                Some(s) => Some(s@),
                None => None,
            },
            start_time: self.start_time,
            video_codec: self.video_codec@,
            audio_codec: self.audio_codec@,
        }
    }
}

impl MiracastReceiver {
    /// Whether the start of the session, if there was one, is a clock time.
    pub open spec fn wf(&self) -> bool {
        self.start_time matches Some(t) ==> is_clock_time(t)
    }

    /// Whether what the receiver was made with is the same.
    pub open spec fn same_setup(&self, other: MiracastReceiver) -> bool {
        self.rtsp_port == other.rtsp_port && self.headless == other.headless && self.audio_enabled
            == other.audio_enabled && self.max_resolution == other.max_resolution
    }

    /// A receiver that does not receive.
    pub fn new(
        rtsp_port: u16,
        rtp_port: i64,
        headless: bool,
        audio_enabled: bool,
        max_resolution: (u32, u32),
    ) -> (r: MiracastReceiver)
        ensures
            r.wf(),
            r.rtsp_port == rtsp_port,
            r.headless == headless,
            r.audio_enabled == audio_enabled,
            r.max_resolution == max_resolution,
            r@ == (ReceiverModel {
                rtp_port: rtp_port as int,
                running: false,
                source: None,
                start_time: None,
                video_codec: "H264"@,
                audio_codec: "AAC"@,
            }),
    {
        MiracastReceiver {
            rtsp_port,
            rtp_port,
            headless,
            audio_enabled,
            max_resolution,
            running: false,
            source: None,
            start_time: None,
            video_codec: "H264".to_owned(),
            audio_codec: "AAC".to_owned(),
        }
    }

    /// Whether a stream is received.
    pub fn is_receiving(&self) -> (r: bool)
        ensures
            r == self@.running,
    {
        self.running
    }

    /// The source of the present or the last session.
    pub fn source_info(&self) -> (r: Option<SourceInfo>)
        ensures
            match r {
                Some(s) => self@.source == Some(s@),
                None => self@.source is None,
            },
    {
        match &self.source {
            Some(s) => Some(s.copy()),
            None => None,
        }
    }

    /// Begins a session with a source at the given time. A receiver that
    /// receives is left alone.
    pub fn start_receiving(&mut self, connection: &IncomingConnection, now: Timestamp) -> (r: Option<
        Session,
    >)
        requires
            old(self).wf(),
            is_clock_time(now),
        ensures
            final(self).wf(),
            final(self).same_setup(*old(self)),
            match r {
                None => old(self)@.running && final(self)@ == old(self)@,
                Some(s) => !old(self)@.running && final(self)@ == (ReceiverModel {
                    running: true,
                    start_time: Some(now),
                    source: Some(named_source(connection@.peer_name, connection@.peer_address)),
                    ..old(self)@
                }) && s.wf() && s@ == (SessionModel {
                    stage: Stage::M1,
                    source_ip: connection@.peer_ip,
                    cseq: 100,
                    rtp_port: old(self)@.rtp_port,
                    audio_codec: old(self)@.audio_codec,
                    max_resolution: old(self).max_resolution,
                    session_id: "0"@,
                    server_port: Seq::empty(),
                }),
            },
    {
        if self.running {
            return None;
        }
        self.running = true;
        self.start_time = Some(now);
        self.source = Some(
            SourceInfo::named(connection.peer_name.as_str(), connection.peer_address.as_str()),
        );
        Some(
            Session::new(
                connection.peer_ip.clone(),
                self.rtp_port,
                self.audio_codec.clone(),
                self.max_resolution,
            ),
        )
    }

    /// Takes over what the source has chosen in a session.
    pub fn take_choices(&mut self, session: &Session)
        ensures
            final(self)@ == (ReceiverModel {
                rtp_port: session@.rtp_port,
                audio_codec: session@.audio_codec,
                ..old(self)@
            }),
            final(self).same_setup(*old(self)),
    {
        self.rtp_port = session.rtp_port;
        self.audio_codec = session.audio_codec.clone();
    }

    /// Ends the session at the given time and sums it up.
    pub fn stop_receiving(&mut self, counters: &Counters, now: Timestamp) -> (r: ReceiverStats)
        requires
            old(self).wf(),
            is_clock_time(now),
        ensures
            final(self).wf(),
            final(self).same_setup(*old(self)),
            final(self)@ == (ReceiverModel { running: false, ..old(self)@ }),
            r.wf(),
            r@ == session_numbers(
                *counters,
                old(self)@.start_time,
                now,
                match old(self)@.start_time {
                    Some(s) => seconds_between(s, now),
                    None => 0,
                },
                old(self)@.video_codec,
            ),
    {
        self.running = false;
        build_stats(counters, self.start_time, now, self.video_codec.as_str())
    }
}

} // verus!
