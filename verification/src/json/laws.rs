//! What holds of values and of their text.

use vstd::prelude::*;
use crate::json::{
    bool_of, int_of, item_texts, json_text, member_texts, num, real_of, text_of, unsigned_of,
    JsonModel, Members, RealModel,
};
use crate::text;
use crate::text::as_i64;

verus! {

/// A value is read as what it was made of, and as nothing else.
pub proof fn law_values_are_of_one_kind(n: i64, b: bool, t: Seq<char>)
    ensures
        int_of(num(n as int)) == Some(n),
        n >= 0 ==> unsigned_of(num(n as int)) == Some(n as u64),
        n < 0 ==> unsigned_of(num(n as int)) is None,
        real_of(num(n as int)) == Some(RealModel::Nearest(n)),
        bool_of(num(n as int)) is None && text_of(num(n as int)) is None,
        bool_of(JsonModel::Bool(b)) == Some(b),
        int_of(JsonModel::Bool(b)) is None && text_of(JsonModel::Bool(b)) is None && real_of(
            JsonModel::Bool(b),
        ) is None,
        text_of(JsonModel::Text(t)) == Some(t),
        int_of(JsonModel::Text(t)) is None && bool_of(JsonModel::Text(t)) is None && real_of(
            JsonModel::Text(t),
        ) is None,
{
}

/// An integer is written in decimal, truth values and nothing by their words,
/// and a text between quotes.
pub proof fn law_plain_values_are_written(n: i64, t: Seq<char>)
    ensures
        as_i64(json_text(num(n as int))) == Some(n as int),
        json_text(JsonModel::Bool(true)) == "true"@,
        json_text(JsonModel::Bool(false)) == "false"@,
        json_text(JsonModel::Null) == "null"@,
        json_text(JsonModel::Text(t)).len() >= 2,
        json_text(JsonModel::Text(t))[0] == '"' && json_text(JsonModel::Text(t)).last() == '"',
{
    text::lemma_dec_read_back(n as int);
}

/// Each item of a list stands in its text at its place, and each member of an
/// object with its name.
pub proof fn law_parts_are_written_in_full(a: Seq<JsonModel>, m: Members)
    ensures
        item_texts(a).len() == a.len(),
        forall|i: int| 0 <= i < a.len() ==> #[trigger] item_texts(a)[i] == json_text(a[i]),
        member_texts(m).len() == m.len(),
        forall|i: int|
            0 <= i < m.len() ==> #[trigger] member_texts(m)[i] == (m[i].0, json_text(m[i].1)),
    decreases a.len() + m.len(),
{
    if a.len() > 0 {
        let front = a.drop_last();
        law_parts_are_written_in_full(front, m);
        assert forall|i: int| 0 <= i < a.len() implies #[trigger] item_texts(a)[i] == json_text(
            a[i],
        ) by {
            if i < front.len() {
                assert(item_texts(front)[i] == json_text(front[i]));
            }
        }
    } else if m.len() > 0 {
        let front = m.drop_last();
        law_parts_are_written_in_full(a, front);
        assert forall|i: int| 0 <= i < m.len() implies #[trigger] member_texts(m)[i] == (
            m[i].0,
            json_text(m[i].1),
        ) by {
            if i < front.len() {
                assert(member_texts(front)[i] == (front[i].0, json_text(front[i].1)));
            }
        }
    }
}

} // verus!
