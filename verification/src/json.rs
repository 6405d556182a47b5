//! JSON values: what a document says, and how one is written.
use vstd::prelude::*;
use crate::text::same;

verus! {

/// A JSON value.
#[derive(Debug, PartialEq, Eq)]
pub enum Json {
    Null,
    Bool(bool),
    Number(serde_json::Number),
    Text(String),
    Array(Vec<Json>),
    Object(Vec<(String, Json)>),
}

/// What a number says: an unsigned integer, a negative one, or a fraction, by the digits
/// that it is written with.
pub enum NumberData {
    Unsigned(u64),
    Negative(i64),
    Fraction(Seq<char>),
}

/// What a JSON value says.
pub enum JsonData {
    Null,
    Bool(bool),
    Number(NumberData),
    Text(Seq<char>),
    Array(Seq<JsonData>),
    Object(Map<Seq<char>, JsonData>),
}

impl View for Json {
    type V = JsonData;

    open spec fn view(&self) -> JsonData {
        data(*self)
    }
}

/// What a value says.
pub open spec fn data(j: Json) -> JsonData
    decreases j,
{
    match j {
        Json::Null => JsonData::Null,
        Json::Bool(b) => JsonData::Bool(b),
        Json::Number(n) => JsonData::Number(number_value(n)),
        Json::Text(s) => JsonData::Text(s@),
        Json::Array(v) => JsonData::Array(array_data(v@)),
        Json::Object(v) => JsonData::Object(object_data(v@)),
    }
}

/// What the items of an array say.
pub open spec fn array_data(items: Seq<Json>) -> Seq<JsonData>
    decreases items,
{
    if items.len() == 0 {
        Seq::empty()
    } else {
        array_data(items.drop_last()).push(data(items.last()))
    }
}

/// What the members of an object say; of two members with one key, the later
/// counts.
pub open spec fn object_data(members: Seq<(String, Json)>) -> Map<Seq<char>, JsonData>
    decreases members,
{
    if members.len() == 0 {
        Map::empty()
    } else {
        object_data(members.drop_last()).insert(members.last().0@, data(members.last().1))
    }
}

/// How many arrays and objects may be nested in one another in a document: reading
/// goes no deeper.
pub const MAX_DEPTH: u8 = 127;

/// Whether a value reads back as it is written: every fraction does, and nothing is
/// nested deeper than `depth`. An integer always does.
pub open spec fn readable(d: JsonData, depth: nat) -> bool
    decreases depth,
{
    match d {
        JsonData::Null => true,
        JsonData::Bool(_) => true,
        JsonData::Number(NumberData::Fraction(digits)) => json_parsed(digits) == Some(d),
        JsonData::Number(_) => true,
        JsonData::Text(_) => true,
        JsonData::Array(items) => depth > 0 && forall|i: int|
            0 <= i < items.len() ==> readable(#[trigger] items[i], (depth - 1) as nat),
        JsonData::Object(members) => depth > 0 && forall|k: Seq<char>|
            members.dom().contains(k) ==> readable(#[trigger] members[k], (depth - 1) as nat),
    }
}

/// Whether every member reads back as it is written.
pub open spec fn all_readable(members: Map<Seq<char>, JsonData>, depth: nat) -> bool {
    forall|k: Seq<char>| members.dom().contains(k) ==> readable(#[trigger] members[k], depth)
}

/// The member of an object.
pub open spec fn member(d: JsonData, key: Seq<char>) -> Option<JsonData> {
    match d {
        JsonData::Object(members) => if members.dom().contains(key) {
            Some(members[key])
        } else {
            None
        },
        _ => None,
    }
}

/// The text that a value is.
pub open spec fn text_of(d: JsonData) -> Option<Seq<char>> {
    match d {
        JsonData::Text(s) => Some(s),
        _ => None,
    }
}

/// The items that a value holds.
pub open spec fn items_of(d: JsonData) -> Option<Seq<JsonData>> {
    match d {
        JsonData::Array(items) => Some(items),
        _ => None,
    }
}

/// The unsigned number that a value is.
pub open spec fn number_of(d: JsonData) -> Option<u64> {
    match d {
        JsonData::Number(n) => unsigned_of(n),
        _ => None,
    }
}

/// The unsigned integer that a number is.
pub open spec fn unsigned_of(n: NumberData) -> Option<u64> {
    match n {
        NumberData::Unsigned(n) => Some(n),
        _ => None,
    }
}

/// The signed integer that a number is.
pub open spec fn signed_of(n: NumberData) -> Option<i64> {
    match n {
        NumberData::Unsigned(n) => if n <= i64::MAX {
            Some(n as i64)
        } else {
            None
        },
        NumberData::Negative(n) => Some(n),
        NumberData::Fraction(_) => None,
    }
}

/// What a signed integer says.
pub open spec fn signed_data(n: i64) -> NumberData {
    if n < 0 {
        NumberData::Negative(n)
    } else {
        NumberData::Unsigned(n as u64)
    }
}

/// What an optional value says.
pub open spec fn opt_data(o: Option<Json>) -> Option<JsonData> {
    match o {
        Some(j) => Some(j@),
        None => None,
    }
}

/// What an optional reference to a value says.
pub open spec fn opt_ref_data(o: Option<&Json>) -> Option<JsonData> {
    match o {
        Some(j) => Some(j@),
        None => None,
    }
}

proof fn lemma_array_data(items: Seq<Json>)
    ensures
        array_data(items).len() == items.len(),
        forall|i: int| 0 <= i < items.len() ==> #[trigger] array_data(items)[i] == data(items[i]),
    decreases items.len(),
{
    if items.len() > 0 {
        lemma_array_data(items.drop_last());
        assert forall|i: int| 0 <= i < items.len() implies #[trigger] array_data(items)[i] == data(
            items[i],
        ) by {
            if i < items.len() - 1 {
                assert(array_data(items.drop_last())[i] == data(items.drop_last()[i]));
            }
        }
    }
}

impl Json {
    /// The member of an object.
    pub fn get(&self, key: &str) -> (out: Option<&Json>)
        ensures
            opt_ref_data(out) == member(self@, key@),
    {
        match self {
            Json::Object(members) => {
                let mut i: usize = members.len();
                assert(members@.take(i as int) == members@);
                while i > 0
                    invariant
                        i <= members@.len(),
                        object_data(members@).dom().contains(key@) == object_data(
                            members@.take(i as int),
                        ).dom().contains(key@),
                        object_data(members@).dom().contains(key@) ==> object_data(members@)[key@]
                            == object_data(members@.take(i as int))[key@],
                        self@ == JsonData::Object(object_data(members@)),
                    decreases i,
                {
                    assert(members@.take(i as int).drop_last() == members@.take(i as int - 1));
                    assert(members@.take(i as int).last() == members@[i as int - 1]);
                    i = i - 1;
                    if same(members[i].0.as_str(), key) {
                        return Some(&members[i].1);
                    }
                }
                assert(members@.take(0) =~= Seq::empty());
                None
            },
            _ => None,
        }
    }

    /// The text that a value is.
    pub fn as_str(&self) -> (out: Option<&str>)
        ensures
            crate::text::opt_str_view(out) == text_of(self@),
    {
        match self {
            Json::Text(s) => Some(s.as_str()),
            _ => None,
        }
    }

    /// The unsigned number that a value is.
    pub fn as_u64(&self) -> (out: Option<u64>)
        ensures
            out == number_of(self@),
    {
        match self {
            Json::Number(n) => n.as_u64(),
            _ => None,
        }
    }

    /// The signed number that a value is.
    pub fn as_i64(&self) -> (out: Option<i64>)
        ensures
            out == (match self@ {
                JsonData::Number(n) => signed_of(n),
                _ => None,
            }),
    {
        match self {
            Json::Number(n) => n.as_i64(),
            _ => None,
        }
    }

    /// The digits of the fraction that a value is.
    pub fn as_fraction(&self) -> (out: Option<String>)
        ensures
            crate::text::opt_view(out) == (match self@ {
                JsonData::Number(NumberData::Fraction(digits)) => Some(digits),
                _ => None,
            }),
    {
        match self {
            Json::Number(n) => if n.as_u64().is_none() && n.as_i64().is_none() {
                Some(number_text(n))
            } else {
                None
            },
            _ => None,
        }
    }

    /// An unsigned number.
    pub fn unsigned(n: u64) -> (j: Json)
        ensures
            j@ == JsonData::Number(NumberData::Unsigned(n)),
    {
        Json::Number(unsigned_number(n))
    }

    /// A signed number.
    pub fn signed(n: i64) -> (j: Json)
        ensures
            j@ == JsonData::Number(signed_data(n)),
    {
        Json::Number(signed_number(n))
    }

    /// The items that a value holds.
    pub fn as_array(&self) -> (out: Option<&Vec<Json>>)
        ensures
            match out {
                Some(v) => items_of(self@) == Some(array_data(v@)) && array_data(v@).len()
                    == v@.len() && forall|i: int|
                    0 <= i < v@.len() ==> array_data(v@)[i] == #[trigger] v@[i]@,
                None => items_of(self@) is None,
            },
    {
        match self {
            Json::Array(v) => {
                proof {
                    lemma_array_data(v@);
                }
                Some(v)
            },
            _ => None,
        }
    }
}

// ── Reading and writing documents ────────────────────────────────────────────

/// `serde_json::Value`, the document tree of `serde_json`.
#[verifier::external_type_specification]
#[verifier::external_body]
pub struct ExValue(serde_json::Value);

/// `serde_json::Number`, a number of such a tree.
#[verifier::external_type_specification]
#[verifier::external_body]
pub struct ExNumber(serde_json::Number);

/// What a `serde_json::Number` holds. A fraction is told by its digits, which no two
/// fractions share.
pub uninterp spec fn number_value(n: serde_json::Number) -> NumberData;

/// `serde_json::Number::as_u64`: the number, where it is an unsigned integer.
pub assume_specification[ serde_json::Number::as_u64 ](n: &serde_json::Number) -> (out: Option<u64>)
    ensures
        out == unsigned_of(number_value(*n)),
;

/// `serde_json::Number::as_i64`: the number, where it is an integer of that range.
pub assume_specification[ serde_json::Number::as_i64 ](n: &serde_json::Number) -> (out: Option<i64>)
    ensures
        out == signed_of(number_value(*n)),
;

/// The `Display` of `serde_json::Number`: of a fraction, the digits that it is told by.
#[verifier::external_body]
fn number_text(n: &serde_json::Number) -> (out: String)
    ensures
        number_value(*n) matches NumberData::Fraction(digits) ==> out@ == digits,
{
    n.to_string()
}

/// `serde_json::Number::from` of an unsigned integer.
#[verifier::external_body]
fn unsigned_number(n: u64) -> (out: serde_json::Number)
    ensures
        number_value(out) == NumberData::Unsigned(n),
{
    serde_json::Number::from(n)
}

/// `serde_json::Number::from` of a signed integer.
#[verifier::external_body]
fn signed_number(n: i64) -> (out: serde_json::Number)
    ensures
        number_value(out) == signed_data(n),
{
    serde_json::Number::from(n)
}

/// `serde_json::Number::clone`: a number that holds the same.
#[verifier::external_body]
fn clone_number(n: &serde_json::Number) -> (out: serde_json::Number)
    ensures
        number_value(out) == number_value(*n),
{
    n.clone()
}

/// What a `serde_json::Value` holds.
pub uninterp spec fn value_data(v: serde_json::Value) -> JsonData;

/// What `serde_json::from_str` reads from a text; `None` where it is no JSON
/// document.
pub uninterp spec fn json_parsed(text: Seq<char>) -> Option<JsonData>;

/// What a value is written as by the `Display` of `serde_json::Value`.
pub uninterp spec fn json_written(d: JsonData) -> Seq<char>;

/// One level of a `serde_json::Value`.
pub enum Level<'a> {
    Null,
    Bool(bool),
    Number(&'a serde_json::Number),
    Text(&'a str),
    Array(&'a Vec<serde_json::Value>),
    Object(Vec<(&'a str, &'a serde_json::Value)>),
}

/// What values of `serde_json` hold, one by one.
pub open spec fn values_data(items: Seq<serde_json::Value>) -> Seq<JsonData> {
    items.map_values(|v: serde_json::Value| value_data(v))
}

/// What members of `serde_json` hold.
pub open spec fn borrowed_members_data(members: Seq<(&str, &serde_json::Value)>) -> Map<
    Seq<char>,
    JsonData,
>
    decreases members.len(),
{
    if members.len() == 0 {
        Map::empty()
    } else {
        borrowed_members_data(members.drop_last()).insert(
            members.last().0@,
            value_data(*members.last().1),
        )
    }
}

impl<'a> Level<'a> {
    /// What the level and everything below it holds.
    pub open spec fn holds(self) -> JsonData {
        match self {
            Level::Null => JsonData::Null,
            Level::Bool(b) => JsonData::Bool(b),
            Level::Number(n) => JsonData::Number(number_value(*n)),
            Level::Text(s) => JsonData::Text(s@),
            Level::Array(a) => JsonData::Array(values_data(a@)),
            Level::Object(m) => JsonData::Object(borrowed_members_data(m@)),
        }
    }
}

/// Whether no two members have the same key.
pub open spec fn distinct_keys(members: Seq<(&str, &serde_json::Value)>) -> bool {
    forall|i: int, j: int|
        0 <= i < j < members.len() ==> (#[trigger] members[i]).0@ != (#[trigger] members[j]).0@
}

proof fn lemma_members(members: Seq<(&str, &serde_json::Value)>, i: int)
    requires
        distinct_keys(members),
        0 <= i < members.len(),
    ensures
        borrowed_members_data(members).dom().contains(members[i].0@),
        borrowed_members_data(members)[members[i].0@] == value_data(*members[i].1),
    decreases members.len(),
{
    let n = members.len() - 1;
    if i < n {
        assert(members.drop_last()[i] == members[i]);
        assert forall|a: int, b: int| 0 <= a < b < n implies (
        #[trigger] members.drop_last()[a]).0@ != (#[trigger] members.drop_last()[b]).0@ by {
            assert(members.drop_last()[a] == members[a]);
            assert(members.drop_last()[b] == members[b]);
        }
        lemma_members(members.drop_last(), i);
        assert(members[i].0@ != members[n].0@);
    }
}

proof fn lemma_members_finite(members: Seq<(&str, &serde_json::Value)>)
    ensures
        borrowed_members_data(members).dom().finite(),
    decreases members.len(),
{
    if members.len() > 0 {
        lemma_members_finite(members.drop_last());
    }
}

/// The variants of `serde_json::Value`, one by one: what a value holds is what
/// its outermost level holds. The members of an object come from a
/// `serde_json::Map`, so no two have the same key.
#[verifier::external_body]
fn open_value<'a>(v: &'a serde_json::Value) -> (level: Level<'a>)
    ensures
        value_data(*v) == level.holds(),
        level matches Level::Object(m) ==> distinct_keys(m@),
{
    match v {
        serde_json::Value::Null => Level::Null,
        serde_json::Value::Bool(b) => Level::Bool(*b),
        serde_json::Value::Number(n) => Level::Number(n),
        serde_json::Value::String(s) => Level::Text(s.as_str()),
        serde_json::Value::Array(a) => Level::Array(a),
        serde_json::Value::Object(m) => Level::Object(m.iter().map(|(k, x)| (k.as_str(), x)).collect()),
    }
}

/// The parts that a `serde_json::Value` is made from.
pub enum Parts {
    Null,
    Bool(bool),
    Number(serde_json::Number),
    Text(String),
    Array(Vec<serde_json::Value>),
    Object(Vec<(String, serde_json::Value)>),
}

/// What owned members of `serde_json` hold; of two with one key, the later counts.
pub open spec fn owned_members_data(members: Seq<(String, serde_json::Value)>) -> Map<
    Seq<char>,
    JsonData,
>
    decreases members.len(),
{
    if members.len() == 0 {
        Map::empty()
    } else {
        owned_members_data(members.drop_last()).insert(
            members.last().0@,
            value_data(members.last().1),
        )
    }
}

/// Whether no two of these members have the same key.
pub open spec fn distinct_owned(members: Seq<(String, serde_json::Value)>) -> bool {
    forall|i: int, j: int|
        0 <= i < j < members.len() ==> (#[trigger] members[i]).0@ != (#[trigger] members[j]).0@
}

proof fn lemma_replaced(
    members: Seq<(String, serde_json::Value)>,
    k: int,
    new: (String, serde_json::Value),
)
    requires
        distinct_owned(members),
        0 <= k < members.len(),
        members[k].0@ == new.0@,
    ensures
        owned_members_data(members.update(k, new)) == owned_members_data(members).insert(
            new.0@,
            value_data(new.1),
        ),
    decreases members.len(),
{
    let n = members.len() - 1;
    let head = members.drop_last();
    if k == n {
        assert(members.update(k, new).drop_last() =~= head);
    } else {
        assert forall|i: int, j: int| 0 <= i < j < head.len() implies (#[trigger] head[i]).0@ != (
        #[trigger] head[j]).0@ by {
            assert(head[i] == members[i]);
            assert(head[j] == members[j]);
        }
        lemma_replaced(head, k, new);
        assert(members.update(k, new).drop_last() =~= head.update(k, new));
        assert(members[k].0@ != members[n].0@);
    }
    assert(owned_members_data(members.update(k, new)) =~= owned_members_data(members).insert(
        new.0@,
        value_data(new.1),
    ));
}

/// Add a member, in place of one with the same key.
fn put_member(
    members: &mut Vec<(String, serde_json::Value)>,
    key: &String,
    value: serde_json::Value,
)
    requires
        distinct_owned(old(members)@),
    ensures
        distinct_owned(final(members)@),
        owned_members_data(final(members)@) == owned_members_data(old(members)@).insert(
            key@,
            value_data(value),
        ),
{
    let ghost before = members@;
    let new = (key.clone(), value);
    let mut k: usize = 0;
    while k < members.len()
        invariant
            k <= members@.len(),
            members@ == before,
            distinct_owned(before),
            forall|i: int| 0 <= i < k ==> (#[trigger] before[i]).0@ != key@,
            new.0@ == key@,
            new.1 == value,
            before == old(members)@,
        decreases members@.len() - k,
    {
        if same(members[k].0.as_str(), key.as_str()) {
            proof {
                lemma_replaced(before, k as int, new);
            }
            members.set(k, new);
            assert(members@ =~= before.update(k as int, new));
            return;
        }
        k = k + 1;
    }
    members.push(new);
    assert(members@.drop_last() =~= before);
}

impl Parts {
    /// What a value made from these parts holds.
    pub open spec fn holds(self) -> JsonData {
        match self {
            Parts::Null => JsonData::Null,
            Parts::Bool(b) => JsonData::Bool(b),
            Parts::Number(n) => JsonData::Number(number_value(n)),
            Parts::Text(s) => JsonData::Text(s@),
            Parts::Array(a) => JsonData::Array(values_data(a@)),
            Parts::Object(m) => JsonData::Object(owned_members_data(m@)),
        }
    }
}

/// The constructors of `serde_json::Value`: a value holds the parts that it was
/// made from. Members are collected into a `serde_json::Map`; which of two with one
/// key it would keep is not stated, so each key comes once.
#[verifier::external_body]
fn make_value(parts: Parts) -> (v: serde_json::Value)
    requires
        parts matches Parts::Object(m) ==> distinct_owned(m@),
    ensures
        value_data(v) == parts.holds(),
{
    match parts {
        Parts::Null => serde_json::Value::Null,
        Parts::Bool(b) => serde_json::Value::Bool(b),
        Parts::Number(n) => serde_json::Value::Number(n),
        Parts::Text(s) => serde_json::Value::String(s),
        Parts::Array(a) => serde_json::Value::Array(a),
        Parts::Object(m) => serde_json::Value::Object(m.into_iter().collect()),
    }
}

/// `serde_json::from_str` into a `serde_json::Value`: what the text says, or
/// `None` where it is no JSON document.
#[verifier::external_body]
fn read_value(text: &str) -> (out: Option<serde_json::Value>)
    ensures
        match out {
            Some(v) => json_parsed(text@) == Some(value_data(v)),
            None => json_parsed(text@) is None,
        },
{
    serde_json::from_str::<serde_json::Value>(text).ok()
}

/// The `Display` of `serde_json::Value`, which writes compact JSON. What is
/// written is determined by what the value holds, and reading it gives that back,
/// where it is nested no deeper than reading goes and its fractions read back: the
/// digits of a fraction may be read as those of a neighbouring one.
#[verifier::external_body]
fn write_value(v: &serde_json::Value) -> (out: String)
    ensures
        out@ == json_written(value_data(*v)),
        readable(value_data(*v), MAX_DEPTH as nat) ==> json_parsed(out@) == Some(value_data(*v)),
{
    v.to_string()
}

/// What a value is written as by `serde_json::to_string_pretty`.
pub uninterp spec fn json_pretty(d: JsonData) -> Seq<char>;

/// `serde_json::to_string_pretty` of a `serde_json::Value`, which writes indented
/// JSON into memory and does not fail. What is written is determined by what the
/// value holds, and reading it gives that back where compact JSON does.
#[verifier::external_body]
fn write_pretty(v: &serde_json::Value) -> (out: Result<String, String>)
    ensures
        out is Ok,
        out->Ok_0@ == json_pretty(value_data(*v)),
        readable(value_data(*v), MAX_DEPTH as nat) ==> json_parsed(out->Ok_0@) == Some(
            value_data(*v),
        ),
{
    serde_json::to_string_pretty(v).map_err(|e| e.to_string())
}

/// Take a `serde_json::Value` apart.
fn from_value(v: &serde_json::Value) -> (j: Json)
    ensures
        j@ == value_data(*v),
    decreases value_data(*v),
{
    match open_value(v) {
        Level::Null => Json::Null,
        Level::Bool(b) => Json::Bool(b),
        Level::Number(n) => Json::Number(clone_number(n)),
        Level::Text(s) => Json::Text(s.to_owned()),
        Level::Array(a) => {
            let mut out: Vec<Json> = Vec::new();
            let mut i: usize = 0;
            assert(array_data(out@) =~= values_data(a@.take(0)));
            while i < a.len()
                invariant
                    i <= a@.len(),
                    value_data(*v) == JsonData::Array(values_data(a@)),
                    array_data(out@) == values_data(a@.take(i as int)),
                decreases a@.len() - i,
            {
                let ghost before = out@;
                proof {
                    let all = value_data(*v)->Array_0;
                    assert(all[i as int] == value_data(a@[i as int]));
                    assert(decreases_to!(value_data(*v) => all));
                    assert(decreases_to!(all => all[i as int]));
                }
                let item = from_value(&a[i]);
                out.push(item);
                assert(out@.drop_last() == before);
                assert(values_data(a@.take(i as int + 1)) =~= values_data(a@.take(i as int)).push(
                    value_data(a@[i as int]),
                ));
                i = i + 1;
            }
            assert(a@.take(a@.len() as int) == a@);
            Json::Array(out)
        },
        Level::Object(m) => {
            let mut out: Vec<(String, Json)> = Vec::new();
            let mut i: usize = 0;
            assert(object_data(out@) =~= borrowed_members_data(m@.take(0)));
            while i < m.len()
                invariant
                    i <= m@.len(),
                    distinct_keys(m@),
                    value_data(*v) == JsonData::Object(borrowed_members_data(m@)),
                    object_data(out@) == borrowed_members_data(m@.take(i as int)),
                decreases m@.len() - i,
            {
                let ghost before = out@;
                proof {
                    lemma_members(m@, i as int);
                    lemma_members_finite(m@);
                    let all = value_data(*v)->Object_0;
                    assert(decreases_to!(value_data(*v) => all));
                    assert(decreases_to!(all => all[m@[i as int].0@]));
                }
                let item = from_value(m[i].1);
                let key = m[i].0.to_owned();
                out.push((key, item));
                assert(out@.drop_last() == before);
                assert(m@.take(i as int + 1).drop_last() == m@.take(i as int));
                assert(m@.take(i as int + 1).last() == m@[i as int]);
                i = i + 1;
            }
            assert(m@.take(m@.len() as int) == m@);
            Json::Object(out)
        },
    }
}

/// Read a JSON document.
pub fn from_text(text: &str) -> (out: Option<Json>)
    ensures
        opt_data(out) == json_parsed(text@),
{
    match read_value(text) {
        Some(v) => Some(from_value(&v)),
        None => None,
    }
}

/// Put a `serde_json::Value` together.
fn to_value(j: &Json) -> (v: serde_json::Value)
    ensures
        value_data(v) == j@,
    decreases *j,
{
    match j {
        Json::Null => make_value(Parts::Null),
        Json::Bool(b) => make_value(Parts::Bool(*b)),
        Json::Number(n) => make_value(Parts::Number(clone_number(n))),
        Json::Text(s) => make_value(Parts::Text(s.clone())),
        Json::Array(items) => {
            let mut out: Vec<serde_json::Value> = Vec::new();
            let mut i: usize = 0;
            proof {
                lemma_array_data(items@);
            }
            while i < items.len()
                invariant
                    i <= items@.len(),
                    *j == Json::Array(*items),
                    array_data(items@).len() == items@.len(),
                    forall|k: int|
                        0 <= k < items@.len() ==> #[trigger] array_data(items@)[k] == data(items@[k]),
                    values_data(out@) =~= array_data(items@).take(i as int),
                decreases items@.len() - i,
            {
                let ghost before = out@;
                proof {
                    assert(decreases_to!(*j => (*j)->Array_0));
                    assert(decreases_to!(*items => items@));
                    assert(decreases_to!(items@ => items@[i as int]));
                }
                let item = to_value(&items[i]);
                assert(value_data(item) == array_data(items@)[i as int]);
                out.push(item);
                assert(values_data(out@) =~= values_data(before).push(value_data(item)));
                i = i + 1;
            }
            assert(values_data(out@) =~= array_data(items@));
            make_value(Parts::Array(out))
        },
        Json::Object(members) => {
            let mut out: Vec<(String, serde_json::Value)> = Vec::new();
            let mut i: usize = 0;
            assert(owned_members_data(out@) =~= object_data(members@.take(0)));
            while i < members.len()
                invariant
                    i <= members@.len(),
                    *j == Json::Object(*members),
                    distinct_owned(out@),
                    owned_members_data(out@) == object_data(members@.take(i as int)),
                decreases members@.len() - i,
            {
                proof {
                    assert(decreases_to!(*j => (*j)->Object_0));
                    assert(decreases_to!(*members => members@));
                    assert(decreases_to!(members@ => members@[i as int]));
                    assert(decreases_to!(members@[i as int] => members@[i as int].1));
                }
                let item = to_value(&members[i].1);
                put_member(&mut out, &members[i].0, item);
                assert(members@.take(i as int + 1).drop_last() == members@.take(i as int));
                assert(members@.take(i as int + 1).last() == members@[i as int]);
                i = i + 1;
            }
            assert(members@.take(members@.len() as int) == members@);
            make_value(Parts::Object(out))
        },
    }
}

/// Write a value as compact JSON. Reading it gives the value back, where that is
/// possible at all.
pub fn to_text(j: &Json) -> (out: String)
    ensures
        out@ == json_written(j@),
        readable(j@, MAX_DEPTH as nat) ==> json_parsed(out@) == Some(j@),
{
    write_value(&to_value(j))
}

/// Write a value as indented JSON. Reading it gives the value back, where that is
/// possible at all.
pub fn to_pretty_text(j: &Json) -> (out: Result<String, String>)
    ensures
        out is Ok,
        out->Ok_0@ == json_pretty(j@),
        readable(j@, MAX_DEPTH as nat) ==> json_parsed(out->Ok_0@) == Some(j@),
{
    write_pretty(&to_value(j))
}

/// Add a member to those of an object.
pub fn put(members: &mut Vec<(String, Json)>, key: &str, value: Json)
    ensures
        object_data(final(members)@) == object_data(old(members)@).insert(key@, value@),
        forall|depth: nat|
            all_readable(object_data(old(members)@), depth) && readable(value@, depth)
                ==> #[trigger] all_readable(object_data(final(members)@), depth),
{
    let ghost before = members@;
    let ghost last = value@;
    members.push((key.to_owned(), value));
    assert(members@.drop_last() == before);
    proof {
        let all = object_data(members@);
        assert forall|depth: nat|
            all_readable(object_data(before), depth) && readable(last, depth)
                implies #[trigger] all_readable(all, depth) by {
            assert forall|k: Seq<char>| all.dom().contains(k) implies readable(
                #[trigger] all[k],
                depth,
            ) by {
                if k != key@ {
                    assert(all[k] == object_data(before)[k]);
                }
            }
        }
    }
}

/// An object of the given members.
pub fn object(members: Vec<(String, Json)>) -> (j: Json)
    ensures
        j@ == JsonData::Object(object_data(members@)),
        forall|depth: nat|
            #[trigger] all_readable(object_data(members@), depth) ==> readable(
                j@,
                (depth + 1) as nat,
            ),
{
    Json::Object(members)
}

// ── Laws ─────────────────────────────────────────────────────────────────────

/// A value says what it is made of: its own truth value or text, and the items of an array
/// in their order.
pub proof fn values_say_what_they_hold(b: bool, s: String, items: Vec<Json>, i: int)
    ensures
        data(Json::Null) == JsonData::Null,
        data(Json::Bool(b)) == JsonData::Bool(b),
        data(Json::Text(s)) == JsonData::Text(s@),
        data(Json::Array(items)) is Array,
        data(Json::Array(items))->Array_0.len() == items@.len(),
        0 <= i < items@.len() ==> data(Json::Array(items))->Array_0[i] == data(items@[i]),
{
    lemma_array_data(items@);
}

/// An object has a member for every key that one of its members has; of several members
/// with one key the last one counts.
pub proof fn the_last_member_of_a_key_counts(members: Seq<(String, Json)>, i: int)
    requires
        0 <= i < members.len(),
        forall|k: int| i < k < members.len() ==> (#[trigger] members[k]).0@ != members[i].0@,
    ensures
        object_data(members).contains_key(members[i].0@),
        object_data(members)[members[i].0@] == data(members[i].1),
    decreases members.len(),
{
    let n = members.len() - 1;
    if i < n {
        let front = members.drop_last();
        assert(front[i] == members[i]);
        assert forall|k: int| i < k < front.len() implies (#[trigger] front[k]).0@
            != front[i].0@ by {
            assert(front[k] == members[k]);
        }
        the_last_member_of_a_key_counts(front, i);
        assert(members[n].0@ != members[i].0@);
    }
}

/// An object has no member for a key that none of its members has.
pub proof fn other_keys_have_no_member(members: Seq<(String, Json)>, key: Seq<char>)
    requires
        forall|k: int| 0 <= k < members.len() ==> (#[trigger] members[k]).0@ != key,
    ensures
        !object_data(members).contains_key(key),
    decreases members.len(),
{
    if members.len() > 0 {
        let front = members.drop_last();
        assert forall|k: int| 0 <= k < front.len() implies (#[trigger] front[k]).0@ != key by {
            assert(front[k] == members[k]);
        }
        other_keys_have_no_member(front, key);
        assert(members[members.len() - 1].0@ != key);
    }
}

/// What is asked of a value is given where it is of that kind, and only there.
pub proof fn values_are_read_by_their_kind(
    d: JsonData,
    members: Map<Seq<char>, JsonData>,
    key: Seq<char>,
    text: Seq<char>,
    items: Seq<JsonData>,
)
    ensures
        members.contains_key(key) ==> member(JsonData::Object(members), key) == Some(members[key]),
        !members.contains_key(key) ==> member(JsonData::Object(members), key) is None,
        member(d, key) is Some ==> d is Object,
        text_of(JsonData::Text(text)) == Some(text),
        text_of(d) is Some ==> d is Text,
        items_of(JsonData::Array(items)) == Some(items),
        items_of(d) is Some ==> d is Array,
        number_of(d) is Some ==> d is Number,
{
}

/// An integer is read as itself, by whichever sign it is asked for as long as it has it.
pub proof fn integers_are_read_as_themselves(n: u64, m: i64)
    ensures
        unsigned_of(NumberData::Unsigned(n)) == Some(n),
        number_of(JsonData::Number(NumberData::Unsigned(n))) == Some(n),
        signed_of(signed_data(m)) == Some(m),
        m >= 0 ==> unsigned_of(signed_data(m)) == Some(m as u64),
        m < 0 ==> unsigned_of(signed_data(m)) is None,
        n > 0x7fff_ffff_ffff_ffff ==> signed_of(NumberData::Unsigned(n)) is None,
        n <= 0x7fff_ffff_ffff_ffff ==> signed_of(NumberData::Unsigned(n)) == Some(n as i64),
{
}

} // verus!
