//! JSON values as the configuration and the session history hold them.

pub mod laws;

use vstd::prelude::*;
use crate::outside::{json_number, json_string, quote_json, rewrite_number};
use crate::text;
use crate::text::{by_name, dec, join, lemma_by_name_renamed, named, order_by_name, renamed, strs};

verus! {

/// A double-precision number, which the library carries but does not compute
/// with: one that was read, or the nearest to an integer or to a number of
/// thousandths.
#[derive(Debug)]
pub enum Real {
    /// A number that was read, by its bits, and as it is written in JSON.
    Read { bits: u64, written: String },
    /// The nearest to an integer.
    Nearest(i64),
    /// The nearest to an integer above the signed range.
    NearestLarge(u64),
    /// The nearest to a number of thousandths.
    Thousandths(u64),
}

/// A double-precision number as contracts see it.
pub enum RealModel {
    Read { bits: u64, written: Seq<char> },
    Nearest(i64),
    NearestLarge(u64),
    Thousandths(u64),
}

impl View for Real {
    type V = RealModel;

    open spec fn view(&self) -> RealModel {
        match self {
            Real::Read { bits, written } => RealModel::Read { bits: *bits, written: written@ },
            Real::Nearest(n) => RealModel::Nearest(*n),
            Real::NearestLarge(n) => RealModel::NearestLarge(*n),
            Real::Thousandths(n) => RealModel::Thousandths(*n),
        }
    }
}

impl Real {
    /// A copy of the number.
    pub fn copy(&self) -> (r: Real)
        ensures
            r@ == self@,
    {
        match self {
            Real::Read { bits, written } => Real::Read { bits: *bits, written: written.clone() },
            Real::Nearest(n) => Real::Nearest(*n),
            Real::NearestLarge(n) => Real::NearestLarge(*n),
            Real::Thousandths(n) => Real::Thousandths(*n),
        }
    }
}

/// A number in JSON: an integer in the signed range, one above it, or a
/// double-precision number.
#[derive(Debug)]
pub enum Number {
    Int(i64),
    Large(u64),
    Real(Real),
}

/// A number as contracts see it.
pub enum NumberModel {
    Int(i64),
    Large(u64),
    Real(RealModel),
}

impl View for Number {
    type V = NumberModel;

    open spec fn view(&self) -> NumberModel {
        match self {
            Number::Int(n) => NumberModel::Int(*n),
            Number::Large(n) => NumberModel::Large(*n),
            Number::Real(r) => NumberModel::Real(r@),
        }
    }
}

/// A JSON value.
#[derive(Debug)]
pub enum Json {
    Null,
    Bool(bool),
    Number(Number),
    Text(String),
    Array(Vec<Json>),
    Object(Vec<(String, Json)>),
}

/// The members of an object as contracts see them.
pub type Members = Seq<(Seq<char>, JsonModel)>;

/// A JSON value as contracts see it.
pub enum JsonModel {
    Null,
    Bool(bool),
    Number(NumberModel),
    Text(Seq<char>),
    Array(Seq<JsonModel>),
    Object(Seq<(Seq<char>, JsonModel)>),
}

impl View for Json {
    type V = JsonModel;

    open spec fn view(&self) -> JsonModel
        decreases self,
    {
        match self {
            Json::Null => JsonModel::Null,
            Json::Bool(b) => JsonModel::Bool(*b),
            Json::Number(n) => JsonModel::Number(n@),
            Json::Text(t) => JsonModel::Text(t@),
            Json::Array(v) => JsonModel::Array(
                Seq::new(
                    v@.len(),
                    |i: int|
                        if 0 <= i < v@.len() {
                            v@[i].view()
                        } else {
                            JsonModel::Null
                        },
                ),
            ),
            Json::Object(v) => JsonModel::Object(
                Seq::new(
                    v@.len(),
                    |i: int|
                        if 0 <= i < v@.len() {
                            (v@[i].0@, v@[i].1.view())
                        } else {
                            (Seq::empty(), JsonModel::Null)
                        },
                ),
            ),
        }
    }
}

/// A whole number in JSON.
pub open spec fn num(n: int) -> JsonModel {
    JsonModel::Number(NumberModel::Int(n as i64))
}

/// An object in JSON.
pub open spec fn object(m: Members) -> JsonModel {
    JsonModel::Object(m)
}

/// The members that a vector stands for.
pub open spec fn members(v: Seq<(String, Json)>) -> Members {
    Seq::new(v.len(), |i: int| (v[i].0@, v[i].1@))
}

/// The values that a vector stands for.
pub open spec fn values(v: Seq<Json>) -> Seq<JsonModel> {
    Seq::new(v.len(), |i: int| v[i]@)
}

/// What an object and a list stand for, by their members and items.
pub proof fn lemma_views(v: Vec<(String, Json)>, w: Vec<Json>)
    ensures
        Json::Object(v)@ == JsonModel::Object(members(v@)),
        Json::Array(w)@ == JsonModel::Array(values(w@)),
{
    reveal_with_fuel(<Json as View>::view, 2);
    let a = Json::Object(v)@;
    let b = Json::Array(w)@;
    if let JsonModel::Object(m) = a {
        assert(m =~= members(v@));
    }
    if let JsonModel::Array(m) = b {
        assert(m =~= values(w@));
    }
}

/// The place of the first member with the given name.
pub open spec fn member_index(m: Members, name: Seq<char>) -> Option<int>
    decreases m.len(),
{
    if m.len() == 0 {
        None
    } else if m[0].0 == name {
        Some(0)
    } else {
        match member_index(m.skip(1), name) {
            Some(k) => Some(k + 1),
            None => None,
        }
    }
}

/// The value of a member.
pub open spec fn member(m: Members, name: Seq<char>) -> Option<JsonModel> {
    match member_index(m, name) {
        Some(k) => Some(m[k].1),
        None => None,
    }
}

/// The members after one is set.
pub open spec fn with_member(m: Members, name: Seq<char>, value: JsonModel) -> Members {
    match member_index(m, name) {
        Some(k) => m.update(k, (name, value)),
        None => m.push((name, value)),
    }
}

pub proof fn lemma_member_index(m: Members, name: Seq<char>)
    ensures
        match member_index(m, name) {
            Some(k) => 0 <= k < m.len() && m[k].0 == name && forall|j: int|
                0 <= j < k ==> m[j].0 != name,
            None => forall|j: int| 0 <= j < m.len() ==> m[j].0 != name,
        },
    decreases m.len(),
{
    if m.len() > 0 && m[0].0 != name {
        lemma_member_index(m.skip(1), name);
        assert forall|j: int| 0 < j < m.len() implies m[j] == m.skip(1)[j - 1] by {}
    }
}

/// The first member of a name is found where none before it has the name.
pub proof fn lemma_member_at(m: Members, name: Seq<char>, k: int)
    requires
        0 <= k < m.len(),
        m[k].0 == name,
        forall|j: int| 0 <= j < k ==> m[j].0 != name,
    ensures
        member_index(m, name) == Some(k),
{
    lemma_member_index(m, name);
}

/// A member that was set is read back, and every other one is as it was.
pub proof fn law_set_member_is_read_back(
    m: Members,
    name: Seq<char>,
    value: JsonModel,
    other: Seq<char>,
)
    ensures
        member(with_member(m, name, value), name) == Some(value),
        other != name ==> member(with_member(m, name, value), other) == member(m, other),
{
    let g = with_member(m, name, value);
    lemma_member_index(m, name);
    lemma_member_index(g, name);
    lemma_member_index(m, other);
    lemma_member_index(g, other);
    match member_index(m, name) {
        Some(k) => {
            lemma_member_at(g, name, k);
        },
        None => {
            lemma_member_at(g, name, m.len() as int);
        },
    }
    if other != name {
        match member_index(m, other) {
            Some(k) => {
                assert(g[k] == m[k]);
                lemma_member_at(g, other, k);
            },
            None => {
                if let Some(j) = member_index(g, other) {
                    assert(j < m.len() ==> g[j].0 == m[j].0);
                    assert(false);
                }
            },
        }
    }
}

/// The value of a member of an object; none of anything else.
pub open spec fn field(v: JsonModel, name: Seq<char>) -> Option<JsonModel> {
    match v {
        JsonModel::Object(m) => member(m, name),
        _ => None,
    }
}

/// The integer that a value is, where it fits the signed range.
pub open spec fn int_of(v: JsonModel) -> Option<i64> {
    match v {
        JsonModel::Number(NumberModel::Int(n)) => Some(n),
        _ => None,
    }
}

/// The integer that a value is, where it is not negative.
pub open spec fn unsigned_of(v: JsonModel) -> Option<u64> {
    match v {
        JsonModel::Number(NumberModel::Int(n)) => if n >= 0 {
            Some(n as u64)
        } else {
            None
        },
        JsonModel::Number(NumberModel::Large(n)) => Some(n),
        _ => None,
    }
}

/// The double-precision number that a value is or is nearest to.
pub open spec fn real_of(v: JsonModel) -> Option<RealModel> {
    match v {
        JsonModel::Number(NumberModel::Int(n)) => Some(RealModel::Nearest(n)),
        JsonModel::Number(NumberModel::Large(n)) => Some(RealModel::NearestLarge(n)),
        JsonModel::Number(NumberModel::Real(r)) => Some(r),
        _ => None,
    }
}

/// The text of a string value.
pub open spec fn text_of(v: JsonModel) -> Option<Seq<char>> {
    match v {
        JsonModel::Text(t) => Some(t),
        _ => None,
    }
}

/// The truth value that a value is.
pub open spec fn bool_of(v: JsonModel) -> Option<bool> {
    match v {
        JsonModel::Bool(b) => Some(b),
        _ => None,
    }
}

/// A double-precision number as JSON writes it.
pub open spec fn real_text(r: RealModel) -> Seq<char> {
    match r {
        RealModel::Read { bits, written } => written,
        RealModel::Nearest(n) => number_text(dec(n as int) + "e0"@),
        RealModel::NearestLarge(n) => number_text(dec(n as int) + "e0"@),
        RealModel::Thousandths(n) => number_text(dec(n as int) + "e-3"@),
    }
}

/// A number as JSON writes it again; nothing of what is none.
pub open spec fn number_text(t: Seq<char>) -> Seq<char> {
    match json_number(t) {
        Some(n) => n,
        None => Seq::empty(),
    }
}

/// A value in JSON. The members of an object stand in the order of their names.
pub open spec fn json_text(v: JsonModel) -> Seq<char>
    decreases v,
{
    match v {
        JsonModel::Null => "null"@,
        JsonModel::Bool(b) => if b {
            "true"@
        } else {
            "false"@
        },
        JsonModel::Number(NumberModel::Int(n)) => dec(n as int),
        JsonModel::Number(NumberModel::Large(n)) => dec(n as int),
        JsonModel::Number(NumberModel::Real(r)) => real_text(r),
        JsonModel::Text(t) => json_string(t),
        JsonModel::Array(a) => "["@ + join(item_texts(a), ","@) + "]"@,
        JsonModel::Object(m) => "{"@ + join(pair_texts(by_name(member_texts(m))), ","@) + "}"@,
    }
}

/// The items of a list in JSON.
pub open spec fn item_texts(a: Seq<JsonModel>) -> Seq<Seq<char>>
    decreases a,
{
    if a.len() == 0 {
        Seq::empty()
    } else {
        item_texts(a.drop_last()).push(json_text(a.last()))
    }
}

/// The names of members, and their values in JSON.
pub open spec fn member_texts(m: Members) -> Seq<(Seq<char>, Seq<char>)>
    decreases m,
{
    if m.len() == 0 {
        Seq::empty()
    } else {
        member_texts(m.drop_last()).push((m.last().0, json_text(m.last().1)))
    }
}

/// Members in JSON.
pub open spec fn pair_texts(s: Seq<(Seq<char>, Seq<char>)>) -> Seq<Seq<char>> {
    Seq::new(s.len(), |i: int| json_string(s[i].0) + ":"@ + s[i].1)
}

/// A value as text: a string is itself, anything else is its JSON text.
pub open spec fn written(v: JsonModel) -> Seq<char> {
    match v {
        JsonModel::Text(t) => t,
        _ => json_text(v),
    }
}

/// What a reference to a value stands for.
pub open spec fn seen(r: Option<&Json>) -> Option<JsonModel> {
    match r {
        Some(v) => Some(v@),
        None => None,
    }
}

/// Finds the place of the first member with the given name.
pub fn place_of(v: &Vec<(String, Json)>, name: &str) -> (r: Option<usize>)
    ensures
        match r {
            Some(k) => member_index(members(v@), name@) == Some(k as int) && k < v@.len(),
            None => member_index(members(v@), name@) is None,
        },
{
    let ghost m = members(v@);
    let mut i: usize = 0;
    while i < v.len()
        invariant
            i <= v@.len(),
            m == members(v@),
            forall|j: int| 0 <= j < i ==> m[j].0 != name@,
        decreases v.len() - i,
    {
        if text::same_str(v[i].0.as_str(), name) {
            proof {
                lemma_member_at(m, name@, i as int);
            }
            return Some(i);
        }
        assert(m[i as int].0 != name@);
        i += 1;
    }
    proof {
        lemma_member_index(m, name@);
    }
    None
}

/// Sets a member.
pub fn set_member(v: &mut Vec<(String, Json)>, name: &str, value: Json)
    ensures
        members(final(v)@) == with_member(members(old(v)@), name@, value@),
{
    match place_of(v, name) {
        Some(k) => {
            v.set(k, (name.to_owned(), value));
            assert(members(v@) =~= with_member(members(old(v)@), name@, value@));
        },
        None => {
            v.push((name.to_owned(), value));
            assert(members(v@) =~= with_member(members(old(v)@), name@, value@));
        },
    }
}

impl Real {
    /// The number as JSON writes it.
    pub fn to_text(&self) -> (r: String)
        ensures
            r@ == real_text(self@),
    {
        match self {
            Real::Read { bits: _, written } => written.clone(),
            Real::Nearest(n) => write_number(text::dec_i64(*n), "e0"),
            Real::NearestLarge(n) => write_number(text::dec_u64(*n), "e0"),
            Real::Thousandths(n) => write_number(text::dec_u64(*n), "e-3"),
        }
    }
}

fn write_number(digits: String, exponent: &str) -> (r: String)
    ensures
        r@ == number_text(digits@ + exponent@),
{
    match rewrite_number(text::joined(digits, exponent).as_str()) {
        Some(t) => t,
        None => String::new(),
    }
}

/// Pairs of strings as contracts see them.
pub open spec fn seen_pairs(v: Seq<(String, String)>) -> Seq<(Seq<char>, Seq<char>)> {
    Seq::new(v.len(), |i: int| (v[i].0@, v[i].1@))
}

fn write_pairs(pairs: Vec<(String, String)>) -> (r: Vec<String>)
    ensures
        strs(r@) == pair_texts(by_name(seen_pairs(pairs@))),
{
    let ghost f = |t: String| t@;
    proof {
        lemma_by_name_renamed(named(pairs@), f);
        assert(renamed(named(pairs@), f) =~= seen_pairs(pairs@));
    }
    let ordered: Vec<(String, String)> = order_by_name(pairs);
    let ghost want = pair_texts(seen_pairs(ordered@));
    assert(renamed(named(ordered@), f) =~= seen_pairs(ordered@));
    let mut parts: Vec<String> = Vec::new();
    let mut i: usize = 0;
    while i < ordered.len()
        invariant
            i <= ordered@.len(),
            want == pair_texts(seen_pairs(ordered@)),
            strs(parts@) == want.take(i as int),
        decreases ordered.len() - i,
    {
        let ghost before = strs(parts@);
        let mut line: String = text::joined(quote_json(ordered[i].0.as_str()), ":");
        line.append(ordered[i].1.as_str());
        let ghost lv = line@;
        assert(lv == want[i as int]);
        parts.push(line);
        assert(strs(parts@) =~= before.push(lv));
        assert(want.take(i + 1) =~= want.take(i as int).push(lv));
        i += 1;
    }
    assert(want.take(want.len() as int) =~= want);
    parts
}

impl Json {
    /// A string value.
    pub fn text(t: &str) -> (r: Json)
        ensures
            r@ == JsonModel::Text(t@),
    {
        Json::Text(t.to_owned())
    }

    /// An integer value.
    pub fn integer(n: i64) -> (r: Json)
        ensures
            r@ == JsonModel::Number(NumberModel::Int(n)),
    {
        Json::Number(Number::Int(n))
    }

    /// A truth value.
    pub fn flag(b: bool) -> (r: Json)
        ensures
            r@ == JsonModel::Bool(b),
    {
        Json::Bool(b)
    }

    /// An object with the given members.
    pub fn object(v: Vec<(String, Json)>) -> (r: Json)
        ensures
            r@ == JsonModel::Object(members(v@)),
    {
        proof {
            lemma_views(v, arbitrary());
        }
        Json::Object(v)
    }

    /// A list of the given values.
    pub fn list(v: Vec<Json>) -> (r: Json)
        ensures
            r@ == JsonModel::Array(values(v@)),
    {
        proof {
            lemma_views(arbitrary(), v);
        }
        Json::Array(v)
    }

    /// Whether the value is an object.
    pub fn is_object(&self) -> (r: bool)
        ensures
            r == (self@ is Object),
    {
        match self {
            Json::Object(_) => true,
            _ => false,
        }
    }

    /// The value of a member of an object.
    pub fn get(&self, name: &str) -> (r: Option<&Json>)
        ensures
            seen(r) == field(self@, name@),
    {
        match self {
            Json::Object(v) => {
                proof {
                    lemma_views(*v, arbitrary());
                }
                match place_of(v, name) {
                    Some(k) => {
                        assert(members(v@)[k as int].1 == v@[k as int].1@);
                        Some(&v[k].1)
                    },
                    None => None,
                }
            },
            _ => None,
        }
    }

    /// The integer that the value is, in the signed range.
    pub fn as_i64(&self) -> (r: Option<i64>)
        ensures
            r == int_of(self@),
    {
        match self {
            Json::Number(Number::Int(n)) => Some(*n),
            _ => None,
        }
    }

    /// The integer that the value is, where it is not negative.
    pub fn as_u64(&self) -> (r: Option<u64>)
        ensures
            r == unsigned_of(self@),
    {
        match self {
            Json::Number(Number::Int(n)) => if *n >= 0 {
                Some(*n as u64)
            } else {
                None
            },
            Json::Number(Number::Large(n)) => Some(*n),
            _ => None,
        }
    }

    /// The double-precision number that the value is or is nearest to.
    pub fn as_real(&self) -> (r: Option<Real>)
        ensures
            match r {
                Some(x) => real_of(self@) == Some(x@),
                None => real_of(self@) is None,
            },
    {
        match self {
            Json::Number(Number::Int(n)) => Some(Real::Nearest(*n)),
            Json::Number(Number::Large(n)) => Some(Real::NearestLarge(*n)),
            Json::Number(Number::Real(x)) => Some(x.copy()),
            _ => None,
        }
    }

    /// The truth value that the value is.
    pub fn as_bool(&self) -> (r: Option<bool>)
        ensures
            r == bool_of(self@),
    {
        match self {
            Json::Bool(b) => Some(*b),
            _ => None,
        }
    }

    /// The text of a string value.
    pub fn as_str(&self) -> (r: Option<&str>)
        ensures
            match r {
                Some(t) => text_of(self@) == Some(t@),
                None => text_of(self@) is None,
            },
    {
        match self {
            Json::Text(t) => Some(t.as_str()),
            _ => None,
        }
    }

    /// The value in JSON.
    #[verifier::loop_isolation(false)]
    pub fn to_text(&self) -> (r: String)
        ensures
            r@ == json_text(self@),
        decreases *self,
    {
        match self {
            Json::Null => "null".to_owned(),
            Json::Bool(b) => if *b {
                "true".to_owned()
            } else {
                "false".to_owned()
            },
            Json::Number(Number::Int(n)) => text::dec_i64(*n),
            Json::Number(Number::Large(n)) => text::dec_u64(*n),
            Json::Number(Number::Real(x)) => x.to_text(),
            Json::Text(t) => quote_json(t.as_str()),
            Json::Array(v) => {
                proof {
                    lemma_views(arbitrary(), *v);
                }
                let ghost vs = values(v@);
                let mut parts: Vec<String> = Vec::new();
                let mut i: usize = 0;
                assert(strs(parts@) =~= item_texts(vs.take(0)));
                while i < v.len()
                    invariant
                        i <= v@.len(),
                        strs(parts@) == item_texts(vs.take(i as int)),
                    decreases v.len() - i,
                {
                    let ghost before = strs(parts@);
                    assert(decreases_to!(*v => v[i as int]));
                    assert(vs.take(i + 1).drop_last() =~= vs.take(i as int));
                    assert(vs[i as int] == v@[i as int]@);
                    let t: String = v[i].to_text();
                    let ghost tv = t@;
                    parts.push(t);
                    assert(strs(parts@) =~= before.push(tv));
                    i += 1;
                }
                assert(vs.take(vs.len() as int) =~= vs);
                let mut out: String = text::joined(
                    "[".to_owned(),
                    text::join_strings(&parts, ",").as_str(),
                );
                out.append("]");
                out
            },
            Json::Object(v) => {
                proof {
                    lemma_views(*v, arbitrary());
                }
                let ghost ms = members(v@);
                let mut pairs: Vec<(String, String)> = Vec::new();
                let mut i: usize = 0;
                assert(seen_pairs(pairs@) =~= member_texts(ms.take(0)));
                while i < v.len()
                    invariant
                        i <= v@.len(),
                        seen_pairs(pairs@) == member_texts(ms.take(i as int)),
                    decreases v.len() - i,
                {
                    let ghost before = seen_pairs(pairs@);
                    assert(decreases_to!(*v => v[i as int]));
                    assert(ms.take(i + 1).drop_last() =~= ms.take(i as int));
                    assert(ms[i as int] == (v@[i as int].0@, v@[i as int].1@));
                    let k: String = v[i].0.clone();
                    let t: String = v[i].1.to_text();
                    let ghost pv = (k@, t@);
                    pairs.push((k, t));
                    assert(seen_pairs(pairs@) =~= before.push(pv));
                    i += 1;
                }
                assert(ms.take(ms.len() as int) =~= ms);
                let parts: Vec<String> = write_pairs(pairs);
                let mut out: String = text::joined(
                    "{".to_owned(),
                    text::join_strings(&parts, ",").as_str(),
                );
                out.append("}");
                out
            },
        }
    }

    /// The value as text: a string is itself, anything else is its JSON text.
    pub fn as_string(&self) -> (r: String)
        ensures
            r@ == written(self@),
    {
        match self {
            Json::Text(t) => t.clone(),
            _ => self.to_text(),
        }
    }

    /// A copy of the value.
    #[verifier::loop_isolation(false)]
    pub fn copy(&self) -> (r: Json)
        ensures
            r@ == self@,
        decreases *self,
    {
        match self {
            Json::Null => Json::Null,
            Json::Bool(b) => Json::Bool(*b),
            Json::Number(Number::Int(n)) => Json::Number(Number::Int(*n)),
            Json::Number(Number::Large(n)) => Json::Number(Number::Large(*n)),
            Json::Number(Number::Real(x)) => Json::Number(Number::Real(x.copy())),
            Json::Text(t) => Json::Text(t.clone()),
            Json::Array(v) => {
                let mut out: Vec<Json> = Vec::new();
                let mut i: usize = 0;
                while i < v.len()
                    invariant
                        i <= v@.len(),
                        values(out@) == values(v@).take(i as int),
                    decreases v.len() - i,
                {
                    let ghost before = values(out@);
                    assert(decreases_to!(*v => v[i as int]));
                    let c: Json = v[i].copy();
                    out.push(c);
                    assert(values(out@) =~= before.push(c@));
                    assert(values(v@).take(i + 1) =~= values(v@).take(i as int).push(c@));
                    i += 1;
                }
                assert(values(v@).take(v@.len() as int) =~= values(v@));
                proof {
                    lemma_views(arbitrary(), *v);
                    lemma_views(arbitrary(), out);
                }
                Json::Array(out)
            },
            Json::Object(v) => {
                let mut out: Vec<(String, Json)> = Vec::new();
                let mut i: usize = 0;
                while i < v.len()
                    invariant
                        i <= v@.len(),
                        members(out@) == members(v@).take(i as int),
                    decreases v.len() - i,
                {
                    let ghost before = members(out@);
                    let k: String = v[i].0.clone();
                    assert(decreases_to!(*v => v[i as int]));
                    let c: Json = v[i].1.copy();
                    out.push((k, c));
                    assert(members(out@) =~= before.push((k@, c@)));
                    assert(members(v@).take(i + 1) =~= members(v@).take(i as int).push((k@, c@)));
                    i += 1;
                }
                assert(members(v@).take(v@.len() as int) =~= members(v@));
                proof {
                    lemma_views(*v, arbitrary());
                    lemma_views(out, arbitrary());
                }
                Json::Object(out)
            },
        }
    }
}

} // verus!
