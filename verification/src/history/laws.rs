//! What holds of the records of a stored history.

use vstd::prelude::*;
use crate::history::{readable, stored_records};
use crate::json::JsonModel;
use crate::models::{record_of, RecordModel};

verus! {

/// What is read of a stored history is read value by value, in its order: a
/// value that cannot be read is left out and disturbs no other.
pub proof fn law_records_are_read_one_by_one(a: Seq<JsonModel>, b: Seq<JsonModel>)
    ensures
        readable(a + b) == readable(a) + readable(b),
    decreases b.len(),
{
    if b.len() == 0 {
        assert(a + b =~= a);
        assert(readable(a) + readable(b) =~= readable(a));
    } else {
        let front = b.drop_last();
        law_records_are_read_one_by_one(a, front);
        assert((a + b).drop_last() =~= a + front);
        assert((a + b).last() == b.last());
        assert(readable(a + b) =~= readable(a) + readable(b));
    }
}

/// A value that can be read gives its record, one that cannot gives none, and
/// what is no list holds no records.
pub proof fn law_readable_value_gives_its_record(v: JsonModel, m: RecordModel)
    ensures
        record_of(v) == Ok::<RecordModel, Seq<char>>(m) ==> readable(seq![v]) == seq![m],
        record_of(v) is Err ==> readable(seq![v]).len() == 0,
        !(v is Array) ==> stored_records(Some(v)).len() == 0,
        stored_records(None).len() == 0,
{
    assert(seq![v].drop_last() =~= Seq::<JsonModel>::empty());
    assert(readable(seq![v].drop_last()) =~= Seq::<RecordModel>::empty());
    if record_of(v) == Ok::<RecordModel, Seq<char>>(m) {
        assert(readable(seq![v]) =~= seq![m]);
    }
}

} // verus!
