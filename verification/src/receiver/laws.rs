//! What holds of the watch over a running stream and of what is summed up at its
//! end.

use vstd::prelude::*;
use crate::json::RealModel;
use crate::models::Timestamp;
use crate::receiver::monitor::{
    drops_too_much, in_window, rate_milli, recent, seconds_between, session_numbers, Counters,
    Sample,
};

verus! {

/// The rate counts eight bits for each byte of a second, in thousandths, as far
/// as such a number can be held; more bytes never make it lower.
pub proof fn law_rate_counts_bits(bytes: int, more: int)
    requires
        0 <= bytes <= more,
    ensures
        bytes <= u64::MAX / 8000 ==> rate_milli(bytes) == 1000 * (8 * bytes),
        rate_milli(bytes) <= rate_milli(more) <= u64::MAX,
{
}

/// Of frames that were decoded and dropped between two looks at the counters,
/// more than five in a hundred dropped ones are too many. Where nothing was
/// decoded, or nothing is known of an earlier time, there is nothing to tell.
pub proof fn law_five_in_a_hundred_may_drop(h: Seq<Sample>)
    ensures
        h.len() < 2 ==> !drops_too_much(h),
        h.len() >= 2 && h.last().decoded == h[0].decoded ==> !drops_too_much(h),
        h.len() >= 2 && h[0].decoded < h.last().decoded && h[0].dropped <= h.last().dropped ==> ({
            let decoded = h.last().decoded - h[0].decoded;
            let dropped = h.last().dropped - h[0].dropped;
            drops_too_much(h) <==> 100 * dropped > 5 * (decoded + dropped)
        }),
{
}

/// What was counted in the last ten seconds is kept and what is older is not.
/// The latest counters are always kept, as the last.
pub proof fn law_window_is_ten_seconds(h: Seq<Sample>, now: Sample)
    ensures
        ({
            let kept = recent(h.push(now), now.at_ns);
            &&& kept.len() > 0 && kept.last() == now
            &&& forall|s: Sample| #[trigger]
                kept.contains(s) ==> h.push(now).contains(s) && now.at_ns - s.at_ns
                    <= 10_000_000_000
            &&& forall|i: int|
                0 <= i < h.len() && now.at_ns - (#[trigger] h[i]).at_ns <= 10_000_000_000
                    ==> kept.contains(h[i])
        }),
{
    let all = h.push(now);
    let kept = recent(all, now.at_ns);
    lemma_recent(all, now.at_ns);
    assert forall|i: int|
        0 <= i < h.len() && now.at_ns - (#[trigger] h[i]).at_ns <= 10_000_000_000 implies kept.contains(
        h[i],
    ) by {
        assert(all[i] == h[i]);
    }
    reveal(Seq::filter);
    assert(all.drop_last() =~= h);
    assert(in_window(now, now.at_ns));
}

proof fn lemma_recent(h: Seq<Sample>, now_ns: u64)
    ensures
        forall|s: Sample| #[trigger]
            recent(h, now_ns).contains(s) ==> h.contains(s) && now_ns - s.at_ns <= 10_000_000_000,
        forall|i: int|
            0 <= i < h.len() && now_ns - (#[trigger] h[i]).at_ns <= 10_000_000_000 ==> recent(
                h,
                now_ns,
            ).contains(h[i]),
    decreases h.len(),
{
    reveal(Seq::filter);
    let kept = recent(h, now_ns);
    if h.len() > 0 {
        let front = h.drop_last();
        let before = recent(front, now_ns);
        lemma_recent(front, now_ns);
        assert(kept == if in_window(h.last(), now_ns) {
            before.push(h.last())
        } else {
            before
        });
        assert forall|s: Sample| #[trigger] kept.contains(s) implies h.contains(s) && now_ns
            - s.at_ns <= 10_000_000_000 by {
            let i = choose|i: int| 0 <= i < kept.len() && kept[i] == s;
            if i < before.len() {
                assert(before[i] == s);
                assert(before.contains(s));
                let k = choose|k: int| 0 <= k < front.len() && front[k] == s;
                assert(h[k] == s);
            } else {
                assert(h[h.len() - 1] == s);
            }
        }
        assert forall|i: int|
            0 <= i < h.len() && now_ns - (#[trigger] h[i]).at_ns
                <= 10_000_000_000 implies kept.contains(h[i]) by {
            if i < front.len() {
                assert(front[i] == h[i]);
                assert(before.contains(h[i]));
                let k = choose|k: int| 0 <= k < before.len() && before[k] == h[i];
                assert(kept[k] == h[i]);
            } else {
                assert(kept[kept.len() - 1] == h[i]);
            }
        }
    }
}

/// The time between two looks at the clock is counted in full seconds: one more
/// would be too many. It is never negative.
pub proof fn law_full_seconds_are_counted(start: Timestamp, end: Timestamp)
    requires
        start.nanos < 1_000_000_000,
        end.nanos < 1_000_000_000,
    ensures
        ({
            let n = seconds_between(start, end);
            let begin = start.secs * 1_000_000_000 + start.nanos;
            let over = end.secs * 1_000_000_000 + end.nanos;
            &&& n >= 0
            &&& begin <= over ==> begin + n * 1_000_000_000 <= over < begin + (n + 1)
                * 1_000_000_000
            &&& over < begin ==> n == 0
        }),
{
}

/// What was counted over a session stands in its numbers: each counter where it
/// belongs, between the start of the session and its end.
pub proof fn law_counters_are_summed_up(
    c: Counters,
    start: Option<Timestamp>,
    end: Timestamp,
    duration: int,
    codec: Seq<char>,
)
    ensures
        ({
            let n = session_numbers(c, start, end, duration, codec);
            &&& start matches Some(t) ==> n.start_time == t
            &&& start is None ==> n.start_time == end
            &&& n.end_time == Some(end)
            &&& 0 <= duration <= i64::MAX ==> n.duration == duration
            &&& c.data_received <= i64::MAX ==> n.data_received == c.data_received
            &&& n.average_bitrate == RealModel::Thousandths(c.current_milli)
            &&& n.peak_bitrate == RealModel::Thousandths(c.peak_milli)
            &&& n.frames_decoded == c.frames_decoded
            &&& n.frames_dropped == c.frames_dropped
            &&& n.errors == c.errors
            &&& n.resolution.0 == c.width && n.resolution.1 == c.height
            &&& n.codec == codec
        }),
{
}

} // verus!
