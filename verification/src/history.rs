//! The history of sessions: at most five hundred records, the oldest of which
//! go first.

pub mod laws;

use vstd::prelude::*;
use crate::json::{lemma_views, values, Json, JsonModel};
use crate::models::{
    end_text, in_utc, is_present, iso_text, later, record_members, record_of, record_to_micros, ReceiverStats,
    RecordModel, ServerSessionRecord, SourceInfo, Timestamp,
};

verus! {

/// The most records that are kept.
pub const MAX_RECORDS: usize = 500;

/// Records as contracts see them.
pub open spec fn records(v: Seq<ServerSessionRecord>) -> Seq<RecordModel> {
    Seq::new(v.len(), |i: int| v[i]@)
}

/// Ordered records with one more: it comes behind those that are not later, or,
/// where the newest come first, behind those that are not earlier.
pub open spec fn placed(s: Seq<RecordModel>, r: RecordModel, newest_first: bool) -> Seq<RecordModel>
    decreases s.len(),
{
    if s.len() == 0 || !comes_before(r, s.last(), newest_first) {
        s.push(r)
    } else {
        placed(s.drop_last(), r, newest_first).push(s.last())
    }
}

/// Whether one record has to stand before another.
pub open spec fn comes_before(a: RecordModel, b: RecordModel, newest_first: bool) -> bool {
    if newest_first {
        later(a.timestamp, b.timestamp)
    } else {
        later(b.timestamp, a.timestamp)
    }
}

/// Records in the order of their times. Those of the same time keep their order.
pub open spec fn sorted(s: Seq<RecordModel>, newest_first: bool) -> Seq<RecordModel>
    decreases s.len(),
{
    if s.len() == 0 {
        s
    } else {
        placed(sorted(s.drop_last(), newest_first), s.last(), newest_first)
    }
}

/// What is kept of records that may be too many: the newest.
pub open spec fn capped(s: Seq<RecordModel>) -> Seq<RecordModel> {
    if s.len() > MAX_RECORDS {
        sorted(s, false).skip(s.len() - MAX_RECORDS)
    } else {
        s
    }
}

/// Whether records stand in the order of their times.
pub open spec fn in_order(s: Seq<RecordModel>, newest_first: bool) -> bool {
    forall|i: int, j: int| 0 <= i < j < s.len() ==> !comes_before(s[j], s[i], newest_first)
}

proof fn lemma_placed(s: Seq<RecordModel>, r: RecordModel, newest_first: bool)
    requires
        in_order(s, newest_first),
    ensures
        in_order(placed(s, r, newest_first), newest_first),
        placed(s, r, newest_first).len() == s.len() + 1,
        placed(s, r, newest_first).to_multiset() == s.to_multiset().insert(r),
    decreases s.len(),
{
    let p = placed(s, r, newest_first);
    broadcast use vstd::seq_lib::group_to_multiset_ensures;

    if s.len() == 0 || !comes_before(r, s.last(), newest_first) {
        assert forall|i: int, j: int| 0 <= i < j < p.len() implies !comes_before(
            p[j],
            p[i],
            newest_first,
        ) by {
            if j == s.len() {
                if i < s.len() - 1 {
                    assert(!comes_before(s[s.len() - 1], s[i], newest_first));
                }
            }
        }
    } else {
        let t = s.drop_last();
        assert forall|i: int, j: int| 0 <= i < j < t.len() implies !comes_before(
            t[j],
            t[i],
            newest_first,
        ) by {
            assert(!comes_before(s[j], s[i], newest_first));
        }
        lemma_placed(t, r, newest_first);
        let q = placed(t, r, newest_first);
        assert(s =~= t.push(s.last()));
        assert(p.to_multiset() =~= s.to_multiset().insert(r));
        assert forall|i: int, j: int| 0 <= i < j < p.len() implies !comes_before(
            p[j],
            p[i],
            newest_first,
        ) by {
            if j == q.len() {
                assert(q.contains(q[i]));
                assert(q.to_multiset().contains(q[i]));
                if q[i] != r {
                    assert(t.to_multiset().contains(q[i]));
                    assert(t.contains(q[i]));
                    let k = choose|k: int| 0 <= k < t.len() && t[k] == q[i];
                    assert(!comes_before(s[s.len() - 1], s[k], newest_first));
                }
            } else {
                assert(!comes_before(q[j], q[i], newest_first));
            }
        }
    }
}

/// Sorting puts the records in order and neither loses nor adds one.
pub proof fn law_sorted_is_an_ordering(s: Seq<RecordModel>, newest_first: bool)
    ensures
        in_order(sorted(s, newest_first), newest_first),
        sorted(s, newest_first).len() == s.len(),
        sorted(s, newest_first).to_multiset() == s.to_multiset(),
    decreases s.len(),
{
    broadcast use vstd::seq_lib::group_to_multiset_ensures;

    if s.len() > 0 {
        law_sorted_is_an_ordering(s.drop_last(), newest_first);
        lemma_placed(sorted(s.drop_last(), newest_first), s.last(), newest_first);
        assert(s =~= s.drop_last().push(s.last()));
    }
}

/// No more than five hundred records are kept, all of them up to that number,
/// and none that is dropped is later than one that is kept.
pub proof fn law_oldest_are_dropped(s: Seq<RecordModel>)
    ensures
        capped(s).len() == if s.len() > 500 {
            500
        } else {
            s.len()
        },
        s.len() <= 500 ==> capped(s) == s,
        s.len() > 500 ==> exists|dropped: Seq<RecordModel>|
            (#[trigger] (dropped + capped(s))).to_multiset() == s.to_multiset() && forall|
                i: int,
                j: int,
            |
                0 <= i < dropped.len() && 0 <= j < capped(s).len() ==> !later(
                    dropped[i].timestamp,
                    capped(s)[j].timestamp,
                ),
{
    law_sorted_is_an_ordering(s, false);
    if s.len() > 500 {
        let o = sorted(s, false);
        let n = s.len() - 500;
        let dropped = o.take(n);
        assert(dropped + capped(s) =~= o);
        assert forall|i: int, j: int|
            0 <= i < dropped.len() && 0 <= j < capped(s).len() implies !later(
            dropped[i].timestamp,
            capped(s)[j].timestamp,
        ) by {
            assert(!comes_before(o[j + n], o[i], false));
        }
        assert((dropped + capped(s)).to_multiset() == s.to_multiset());
    }
}

proof fn lemma_placed_at(s: Seq<RecordModel>, r: RecordModel, k: int, newest_first: bool)
    requires
        0 <= k <= s.len(),
        forall|i: int| k <= i < s.len() ==> comes_before(r, #[trigger] s[i], newest_first),
        k > 0 ==> !comes_before(r, s[k - 1], newest_first),
    ensures
        placed(s, r, newest_first) == s.insert(k, r),
    decreases s.len(),
{
    if k < s.len() {
        let t = s.drop_last();
        assert(comes_before(r, s[s.len() - 1], newest_first));
        assert forall|i: int| k <= i < t.len() implies comes_before(
            r,
            #[trigger] t[i],
            newest_first,
        ) by {
            assert(t[i] == s[i]);
        }
        lemma_placed_at(t, r, k, newest_first);
        assert(t.insert(k, r).push(s.last()) =~= s.insert(k, r));
    } else {
        assert(s.insert(k, r) =~= s.push(r));
    }
}

fn must_precede(a: &ServerSessionRecord, b: &ServerSessionRecord, newest_first: bool) -> (r: bool)
    ensures
        r == comes_before(a@, b@, newest_first),
{
    if newest_first {
        a.timestamp.is_later(&b.timestamp)
    } else {
        b.timestamp.is_later(&a.timestamp)
    }
}

fn place(out: &mut Vec<ServerSessionRecord>, r: ServerSessionRecord, newest_first: bool)
    requires
        r.wf(),
        forall|i: int| 0 <= i < old(out)@.len() ==> (#[trigger] old(out)@[i]).wf(),
    ensures
        records(final(out)@) == placed(records(old(out)@), r@, newest_first),
        final(out)@.len() == old(out)@.len() + 1,
        forall|i: int| 0 <= i < final(out)@.len() ==> (#[trigger] final(out)@[i]).wf(),
{
    let ghost s = records(out@);
    let mut k: usize = out.len();
    while k > 0 && must_precede(&r, &out[k - 1], newest_first)
        invariant
            k <= out@.len(),
            s == records(out@),
            forall|i: int| k <= i < s.len() ==> comes_before(r@, #[trigger] s[i], newest_first),
        decreases k,
    {
        assert(s[k - 1] == out@[k - 1]@);
        k -= 1;
    }
    proof {
        if k > 0 {
            assert(s[k - 1] == out@[k - 1]@);
        }
        lemma_placed_at(s, r@, k as int, newest_first);
    }
    let ghost before = out@;
    out.insert(k, r);
    assert(records(out@) =~= s.insert(k as int, r@));
    assert forall|i: int| 0 <= i < out@.len() implies (#[trigger] out@[i]).wf() by {
        if i < k {
            assert(out@[i] == before[i]);
        } else if i > k {
            assert(out@[i] == before[i - 1]);
        }
    }
}

fn sort_copy(v: &Vec<ServerSessionRecord>, newest_first: bool) -> (r: Vec<ServerSessionRecord>)
    requires
        forall|i: int| 0 <= i < v@.len() ==> (#[trigger] v@[i]).wf(),
    ensures
        records(r@) == sorted(records(v@), newest_first),
        r@.len() == v@.len(),
        forall|i: int| 0 <= i < r@.len() ==> (#[trigger] r@[i]).wf(),
{
    let mut out: Vec<ServerSessionRecord> = Vec::new();
    let ghost s = records(v@);
    let mut i: usize = 0;
    assert(records(out@) =~= sorted(s.take(0), newest_first));
    while i < v.len()
        invariant
            i <= v@.len(),
            s == records(v@),
            out@.len() == i,
            records(out@) == sorted(s.take(i as int), newest_first),
            forall|j: int| 0 <= j < v@.len() ==> (#[trigger] v@[j]).wf(),
            forall|j: int| 0 <= j < out@.len() ==> (#[trigger] out@[j]).wf(),
        decreases v.len() - i,
    {
        assert(s.take(i + 1).drop_last() =~= s.take(i as int));
        assert(v@[i as int].wf());
        let c: ServerSessionRecord = v[i].copy();
        place(&mut out, c, newest_first);
        i += 1;
    }
    assert(s.take(s.len() as int) =~= s);
    out
}

/// Records with their times without regard to where they were taken.
pub open spec fn in_utc_all(s: Seq<RecordModel>) -> Seq<RecordModel> {
    s.map_values(|m: RecordModel| in_utc(m))
}

/// The records that are read out of stored values: those that can be read,
/// without regard to where their times were taken.
pub open spec fn readable(v: Seq<JsonModel>) -> Seq<RecordModel>
    decreases v.len(),
{
    if v.len() == 0 {
        Seq::empty()
    } else {
        match record_of(v.last()) {
            Ok(r) => readable(v.drop_last()).push(r),
            Err(_) => readable(v.drop_last()),
        }
    }
}

/// The records of a stored history: those of a list, none of anything else.
pub open spec fn stored_records(v: Option<JsonModel>) -> Seq<RecordModel> {
    match v {
        Some(JsonModel::Array(a)) => readable(a),
        _ => Seq::empty(),
    }
}

/// The records of past sessions.
#[derive(Debug)]
pub struct ServerSessionHistory {
    pub sessions: Vec<ServerSessionRecord>,
}

impl ServerSessionHistory {
    /// Whether the times of all records are points in time.
    pub open spec fn wf(&self) -> bool {
        forall|i: int| 0 <= i < self.sessions@.len() ==> (#[trigger] self.sessions@[i]).wf()
    }

    /// Takes up a stored history. What cannot be read is left out.
    pub fn new(found: Option<&Json>) -> (r: ServerSessionHistory)
        ensures
            r.wf(),
            in_utc_all(records(r.sessions@)) == stored_records(
                match found {
                    Some(v) => Some(v@),
                    None => None,
                },
            ),
    {
        let mut out: Vec<ServerSessionRecord> = Vec::new();
        if let Some(Json::Array(a)) = found {
            proof {
                lemma_views(arbitrary(), *a);
            }
            let ghost vs = values(a@);
            let mut i: usize = 0;
            assert(in_utc_all(records(out@)) =~= readable(vs.take(0)));
            while i < a.len()
                invariant
                    i <= a@.len(),
                    vs == values(a@),
                    in_utc_all(records(out@)) == readable(vs.take(i as int)),
                    forall|j: int| 0 <= j < out@.len() ==> (#[trigger] out@[j]).wf(),
                decreases a.len() - i,
            {
                assert(vs.take(i + 1).drop_last() =~= vs.take(i as int));
                assert(vs[i as int] == a@[i as int]@);
                let ghost before = in_utc_all(records(out@));
                if let Ok(rec) = ServerSessionRecord::from_dict(&a[i]) {
                    let ghost m = in_utc(rec@);
                    out.push(rec);
                    assert(in_utc_all(records(out@)) =~= before.push(m));
                }
                i += 1;
            }
            assert(vs.take(vs.len() as int) =~= vs);
        } else {
            assert(in_utc_all(records(out@)) =~= Seq::<RecordModel>::empty());
        }
        ServerSessionHistory { sessions: out }
    }

    /// Adds the record of a session that ended at the given time, and returns
    /// it.
    pub fn add_session_at(
        &mut self,
        source_info: &SourceInfo,
        stats: &ReceiverStats,
        now: Timestamp,
    ) -> (r: ServerSessionRecord)
        requires
            old(self).wf(),
            stats.wf(),
            now.wf(),
        ensures
            final(self).wf(),
            r@ == (RecordModel { source_info: source_info@, stats: stats@, timestamp: now }),
            r.wf(),
            records(final(self).sessions@) == capped(records(old(self).sessions@).push(r@)),
    {
        let record: ServerSessionRecord = ServerSessionRecord {
            source_info: source_info.copy(),
            stats: stats.copy(),
            timestamp: now,
        };
        let ghost before = records(self.sessions@);
        self.sessions.push(record.copy());
        assert(records(self.sessions@) =~= before.push(record@));
        if self.sessions.len() > MAX_RECORDS {
            let mut ordered: Vec<ServerSessionRecord> = sort_copy(&self.sessions, false);
            let extra: usize = ordered.len() - MAX_RECORDS;
            let ghost o = ordered@;
            let kept: Vec<ServerSessionRecord> = ordered.split_off(extra);
            assert(records(kept@) =~= records(o).skip(extra as int));
            assert forall|i: int| 0 <= i < kept@.len() implies (#[trigger] kept@[i]).wf() by {
                assert(kept@[i] == o[i + extra]);
            }
            self.sessions = kept;
        }
        record
    }

    /// Adds the record of a session that has just ended, and returns it.
    pub fn add_session(&mut self, source_info: &SourceInfo, stats: &ReceiverStats) -> (r:
        ServerSessionRecord)
        requires
            old(self).wf(),
            stats.wf(),
        ensures
            final(self).wf(),
            r.wf(),
            is_present(r.timestamp),
            r@.source_info == source_info@,
            r@.stats == stats@,
            records(final(self).sessions@) == capped(records(old(self).sessions@).push(r@)),
    {
        let now: Timestamp = Timestamp::now();
        self.add_session_at(source_info, stats, now)
    }

    /// All records, the newest first.
    pub fn get_sessions(&self) -> (r: Vec<ServerSessionRecord>)
        requires
            self.wf(),
        ensures
            records(r@) == sorted(records(self.sessions@), true),
            forall|i: int| 0 <= i < r@.len() ==> (#[trigger] r@[i]).wf(),
    {
        sort_copy(&self.sessions, true)
    }

    /// Forgets all records once the empty history is stored; where that failed,
    /// everything stays.
    pub fn clear(&mut self, written: bool)
        ensures
            records(final(self).sessions@) == if written {
                Seq::empty()
            } else {
                records(old(self).sessions@)
            },
            old(self).wf() ==> final(self).wf(),
    {
        if written {
            self.sessions = Vec::new();
            assert(records(self.sessions@) =~= Seq::<RecordModel>::empty());
        }
    }

    /// Whether the times of all records are written so that they can be read
    /// back.
    pub open spec fn is_plain(&self) -> bool {
        forall|i: int| 0 <= i < self.sessions@.len() ==> (#[trigger] self.sessions@[i]).is_plain()
    }

    /// The history as it is stored. With plain times the same records are read
    /// back, their times cut to microseconds.
    pub fn to_json(&self) -> (r: Json)
        requires
            self.wf(),
        ensures
            r@ is Array,
            r@->Array_0.len() == self.sessions@.len(),
            forall|i: int|
                0 <= i < self.sessions@.len() ==> #[trigger] r@->Array_0[i] == stored_form(
                    self.sessions@[i],
                ),
            self.is_plain() ==> stored_records(Some(r@)) == records(self.sessions@).map_values(
                |m: RecordModel| in_utc(record_to_micros(m)),
            ),
    {
        let mut out: Vec<Json> = Vec::new();
        let ghost all = records(self.sessions@).map_values(|m: RecordModel| in_utc(record_to_micros(m)));
        let mut i: usize = 0;
        assert(readable(values(out@)) =~= all.take(0));
        while i < self.sessions.len()
            invariant
                i <= self.sessions@.len(),
                self.wf(),
                out@.len() == i,
                all == records(self.sessions@).map_values(|m: RecordModel| in_utc(record_to_micros(m))),
                forall|j: int|
                    0 <= j < i ==> #[trigger] values(out@)[j] == stored_form(self.sessions@[j]),
                self.is_plain() ==> readable(values(out@)) == all.take(i as int),
            decreases self.sessions.len() - i,
        {
            assert(self.sessions@[i as int].wf());
            let ghost before = values(out@);
            let v: Json = self.sessions[i].to_dict();
            let ghost m = v@;
            out.push(v);
            assert(values(out@) =~= before.push(m));
            assert(values(out@).drop_last() =~= before);
            assert(all.take(i + 1) =~= all.take(i as int).push(all[i as int]));
            assert forall|j: int| 0 <= j < i + 1 implies #[trigger] values(out@)[j] == stored_form(
                self.sessions@[j],
            ) by {
                if j < i {
                    assert(values(out@)[j] == before[j]);
                }
            }
            i += 1;
        }
        assert(all.take(all.len() as int) =~= all);
        Json::list(out)
    }
}

/// The form in which a record is stored.
pub open spec fn stored_form(r: ServerSessionRecord) -> JsonModel {
    crate::json::object(
        record_members(
            r@,
            iso_text(r.stats.start_time),
            end_text(r.stats.end_time),
            iso_text(r.timestamp),
        ),
    )
}

} // verus!
