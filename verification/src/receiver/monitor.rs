//! The watch over a running stream: its rate, the frames it drops, and whether
//! data still comes.

use vstd::prelude::*;
use crate::events::StreamStats;
use crate::json::{Real, RealModel};
use crate::models::{ReceiverStats, StatsModel, Timestamp};

verus! {

/// The nanoseconds without data after which the stream is lost.
pub const RTP_TIMEOUT_NS: u64 = 15_000_000_000;

/// The nanoseconds over which dropped frames are counted.
pub const FRAME_DROP_WINDOW_NS: u64 = 10_000_000_000;

/// The frame counters at a time.
#[derive(Debug, Clone, Copy, PartialEq, Eq, Structural)]
pub struct Sample {
    pub at_ns: u64,
    pub decoded: i64,
    pub dropped: i64,
}

/// The rate of a second's bytes in thousandths of bits per second, as far as it
/// can be counted.
pub open spec fn rate_milli(bytes: int) -> int {
    if bytes * 8000 > u64::MAX {
        u64::MAX as int
    } else {
        bytes * 8000
    }
}

/// Whether a sample lies in the window that ends now.
pub open spec fn in_window(s: Sample, now_ns: u64) -> bool {
    now_ns - s.at_ns <= FRAME_DROP_WINDOW_NS
}

/// The samples in the window that ends now.
pub open spec fn recent(h: Seq<Sample>, now_ns: u64) -> Seq<Sample> {
    h.filter(|s: Sample| in_window(s, now_ns))
}

/// Whether more than one in twenty of the frames between the first and the last
/// sample was dropped. Without decoded frames there is nothing to tell.
pub open spec fn drops_too_much(h: Seq<Sample>) -> bool {
    let decoded = h.last().decoded - h[0].decoded;
    let dropped = h.last().dropped - h[0].dropped;
    let all = decoded + dropped;
    h.len() >= 2 && decoded > 0 && if all > 0 {
        dropped * 20 > all
    } else {
        all < 0 && dropped * 20 < all
    }
}

/// What a look at the counters shows.
#[derive(Debug, Clone, Copy, PartialEq, Eq, Structural)]
pub struct Reading {
    /// The rate in thousandths of bits per second.
    pub bitrate_milli: u64,
    /// Whether too many frames are dropped.
    pub drop_warning: bool,
    /// How many nanoseconds the lost stream has been silent.
    pub lost_after_ns: Option<u64>,
}

/// The watch over a running stream.
#[derive(Debug)]
pub struct StreamMonitor {
    pub last_bytes: u64,
    pub peak_milli: u64,
    pub history: Vec<Sample>,
}

impl StreamMonitor {
    /// Whether no counter is negative.
    pub open spec fn wf(&self) -> bool {
        forall|i: int|
            0 <= i < self.history@.len() ==> (#[trigger] self.history@[i]).decoded >= 0
                && self.history@[i].dropped >= 0
    }

    /// A watch at the start of a stream, with the highest rate so far.
    pub fn new(peak_milli: u64) -> (r: StreamMonitor)
        ensures
            r.last_bytes == 0,
            r.peak_milli == peak_milli,
            r.history@ == Seq::<Sample>::empty(),
            r.wf(),
    {
        StreamMonitor { last_bytes: 0, peak_milli, history: Vec::new() }
    }

    /// Takes the counters a second after the last time.
    pub fn tick(
        &mut self,
        now_ns: u64,
        bytes: u64,
        decoded: i64,
        dropped: i64,
        last_rtp_ns: u64,
    ) -> (r: Reading)
        requires
            old(self).wf(),
            decoded >= 0,
            dropped >= 0,
        ensures
            final(self).wf(),
            final(self).last_bytes == bytes,
            r.bitrate_milli == rate_milli(
                if bytes >= old(self).last_bytes {
                    bytes - old(self).last_bytes
                } else {
                    0
                },
            ),
            final(self).peak_milli == if r.bitrate_milli > old(self).peak_milli {
                r.bitrate_milli
            } else {
                old(self).peak_milli
            },
            final(self).history@ == recent(
                old(self).history@.push(Sample { at_ns: now_ns, decoded, dropped }),
                now_ns,
            ),
            r.drop_warning == drops_too_much(final(self).history@),
            r.lost_after_ns is Some <==> last_rtp_ns > 0 && now_ns >= last_rtp_ns + 15_000_000_000,
            r.lost_after_ns == if last_rtp_ns > 0 && now_ns - last_rtp_ns >= RTP_TIMEOUT_NS {
                Some((now_ns - last_rtp_ns) as u64)
            } else {
                None
            },
    {
        let delta: u64 = bytes.saturating_sub(self.last_bytes);
        let wide: u128 = delta as u128 * 8000;
        let bitrate_milli: u64 = if wide > u64::MAX as u128 {
            u64::MAX
        } else {
            wide as u64
        };
        self.last_bytes = bytes;
        if bitrate_milli > self.peak_milli {
            self.peak_milli = bitrate_milli;
        }
        let ghost h0 = self.history@;
        let new: Sample = Sample { at_ns: now_ns, decoded, dropped };
        self.history.push(new);
        let all: Vec<Sample> = keep_recent(&self.history, now_ns);
        self.history = all;
        let n: usize = self.history.len();
        let drop_warning: bool = if n >= 2 {
            let first: Sample = self.history[0];
            let last: Sample = self.history[n - 1];
            let d: i128 = last.decoded as i128 - first.decoded as i128;
            let x: i128 = last.dropped as i128 - first.dropped as i128;
            let total: i128 = d + x;
            d > 0 && if total > 0 {
                x * 20 > total
            } else {
                total < 0 && x * 20 < total
            }
        } else {
            false
        };
        let lost_after_ns: Option<u64> = if last_rtp_ns > 0 && now_ns >= last_rtp_ns && now_ns
            - last_rtp_ns >= RTP_TIMEOUT_NS {
            Some(now_ns - last_rtp_ns)
        } else {
            None
        };
        Reading { bitrate_milli, drop_warning, lost_after_ns }
    }
}

fn keep_recent(h: &Vec<Sample>, now_ns: u64) -> (r: Vec<Sample>)
    requires
        forall|i: int|
            0 <= i < h@.len() ==> (#[trigger] h@[i]).decoded >= 0 && h@[i].dropped >= 0,
    ensures
        r@ == recent(h@, now_ns),
        forall|i: int|
            0 <= i < r@.len() ==> (#[trigger] r@[i]).decoded >= 0 && r@[i].dropped >= 0,
{
    let mut out: Vec<Sample> = Vec::new();
    let mut i: usize = 0;
    proof {
        reveal(Seq::filter);
    }
    while i < h.len()
        invariant
            i <= h@.len(),
            out@ == recent(h@.take(i as int), now_ns),
            forall|j: int|
                0 <= j < h@.len() ==> (#[trigger] h@[j]).decoded >= 0 && h@[j].dropped >= 0,
            forall|j: int|
                0 <= j < out@.len() ==> (#[trigger] out@[j]).decoded >= 0 && out@[j].dropped >= 0,
        decreases h.len() - i,
    {
        reveal(Seq::filter);
        assert(h@.take(i + 1).drop_last() =~= h@.take(i as int));
        let s: Sample = h[i];
        if now_ns.saturating_sub(s.at_ns) <= FRAME_DROP_WINDOW_NS {
            out.push(s);
        }
        i += 1;
    }
    assert(h@.take(h@.len() as int) =~= h@);
    out
}

/// What was counted over a session.
#[derive(Debug, Clone, Copy)]
pub struct Counters {
    pub data_received: u64,
    pub current_milli: u64,
    pub peak_milli: u64,
    pub frames_decoded: i64,
    pub frames_dropped: i64,
    pub errors: i64,
    pub width: u32,
    pub height: u32,
}

/// The numbers of a session that has ended.
pub open spec fn session_numbers(
    c: Counters,
    start: Option<Timestamp>,
    end: Timestamp,
    duration: int,
    codec: Seq<char>,
) -> StatsModel {
    StatsModel {
        start_time: match start {
            Some(s) => s,
            None => end,
        },
        end_time: Some(end),
        duration: duration as i64,
        data_received: c.data_received as i64,
        average_bitrate: RealModel::Thousandths(c.current_milli),
        peak_bitrate: RealModel::Thousandths(c.peak_milli),
        frames_decoded: c.frames_decoded,
        frames_dropped: c.frames_dropped,
        errors: c.errors,
        resolution: (c.width, c.height),
        codec,
    }
}

/// Whole seconds between two clock times; zero where the second is not later.
pub open spec fn seconds_between(start: Timestamp, end: Timestamp) -> int {
    let total = (end.secs - start.secs) * 1_000_000_000 + end.nanos - start.nanos;
    if total > 0 {
        total / 1_000_000_000
    } else {
        0
    }
}

/// Whether a time can be one of the clock.
pub open spec fn is_clock_time(t: Timestamp) -> bool {
    t.wf() && t.nanos < 1_000_000_000
}

/// Sums up a session that ends at the given time.
pub fn build_stats(c: &Counters, start: Option<Timestamp>, end: Timestamp, codec: &str) -> (r:
    ReceiverStats)
    requires
        is_clock_time(end),
        start matches Some(s) ==> is_clock_time(s),
    ensures
        r@ == session_numbers(
            *c,
            start,
            end,
            match start {
                Some(s) => seconds_between(s, end),
                None => 0,
            },
            codec@,
        ),
        r.wf(),
        r.duration >= 0,
{
    let duration: i64 = match start {
        Some(s) => end.seconds_since(&s),
        None => 0,
    };
    ReceiverStats {
        start_time: match start {
            Some(s) => s,
            None => end,
        },
        end_time: Some(end),
        duration,
        data_received: c.data_received as i64,
        average_bitrate: Real::Thousandths(c.current_milli),
        peak_bitrate: Real::Thousandths(c.peak_milli),
        frames_decoded: c.frames_decoded,
        frames_dropped: c.frames_dropped,
        errors: c.errors,
        resolution: (c.width, c.height),
        codec: codec.to_owned(),
    }
}

/// The numbers of a running stream as they are sent out.
pub fn stream_stats(c: &Counters, start: Option<Timestamp>, now: Timestamp) -> (r: StreamStats)
    requires
        is_clock_time(now),
        start matches Some(s) ==> is_clock_time(s),
    ensures
        r.bitrate@ == RealModel::Thousandths(c.current_milli),
        r.peak_bitrate@ == RealModel::Thousandths(c.peak_milli),
        r.frames_decoded == c.frames_decoded,
        r.frames_dropped == c.frames_dropped,
        r.resolution == (c.width, c.height),
        r.data_received == c.data_received as i64,
        r.duration == match start {
            Some(s) => seconds_between(s, now),
            None => 0,
        },
{
    StreamStats {
        bitrate: Real::Thousandths(c.current_milli),
        peak_bitrate: Real::Thousandths(c.peak_milli),
        frames_decoded: c.frames_decoded,
        frames_dropped: c.frames_dropped,
        resolution: (c.width, c.height),
        data_received: c.data_received as i64,
        duration: match start {
            Some(s) => now.seconds_since(&s),
            None => 0,
        },
    }
}

} // verus!
