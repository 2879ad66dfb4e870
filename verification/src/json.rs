//! JSON values as the cleaner reads and builds them, and the text that
//! `serde_json` gives them.
use crate::duplicate::{seq_views, Duplicate};
use crate::text::same_text;
use vstd::prelude::*;

verus! {

/// `serde_json::Number`, carried through unread.
#[verifier::external_type_specification]
#[verifier::external_body]
pub struct ExNumber(serde_json::Number);

/// `serde_json::Value`, the form in which a value is handed to `serde_json`.
#[verifier::external_type_specification]
#[verifier::external_body]
pub struct ExSerdeValue(serde_json::Value);

/// `serde_json::Error`, carried through unread.
#[verifier::external_type_specification]
#[verifier::external_body]
pub struct ExSerdeError(serde_json::Error);

/// What a JSON value is: objects are maps, so neither the order of their
/// members nor a member that a later one replaces is part of it.
pub enum Json {
    Null,
    Bool(bool),
    Num(serde_json::Number),
    Text(Seq<char>),
    Array(Seq<Json>),
    Object(Map<Seq<char>, Json>),
}

impl Json {
    /// The member of an object under `key`; nothing else has members.
    pub open spec fn member(self, key: Seq<char>) -> Option<Json> {
        match self {
            Json::Object(m) => if m.contains_key(key) {
                Some(m[key])
            } else {
                None
            },
            _ => None,
        }
    }

    /// The text of a string value.
    pub open spec fn text(self) -> Option<Seq<char>> {
        match self {
            Json::Text(s) => Some(s),
            _ => None,
        }
    }

    /// The text of the member under `key`, where that member is a string.
    pub open spec fn text_member(self, key: Seq<char>) -> Option<Seq<char>> {
        match self.member(key) {
            Some(v) => v.text(),
            None => None,
        }
    }
}

/// An object with one member.
pub open spec fn object_of(key: Seq<char>, value: Json) -> Json {
    Json::Object(Map::<Seq<char>, Json>::empty().insert(key, value))
}

/// A JSON value. An object lists its members in order; where a key is listed
/// twice, the later member counts.
#[derive(Debug)]
pub enum JsonValue {
    Null,
    Bool(bool),
    Num(serde_json::Number),
    Text(String),
    Array(Vec<JsonValue>),
    Object(Vec<(String, JsonValue)>),
}

/// The value that a [`JsonValue`] stands for.
pub open spec fn value_model(v: JsonValue) -> Json
    decreases v,
{
    match v {
        JsonValue::Null => Json::Null,
        JsonValue::Bool(b) => Json::Bool(b),
        JsonValue::Num(n) => Json::Num(n),
        JsonValue::Text(s) => Json::Text(s@),
        JsonValue::Array(items) => Json::Array(
            Seq::new(
                items@.len(),
                |i: int|
                    if 0 <= i < items@.len() {
                        value_model(items@[i])
                    } else {
                        Json::Null
                    },
            ),
        ),
        JsonValue::Object(members) => Json::Object(members_model(members@)),
    }
}

/// The map that a list of members stands for.
pub open spec fn members_model(members: Seq<(String, JsonValue)>) -> Map<Seq<char>, Json>
    decreases members,
{
    if members.len() == 0 {
        Map::empty()
    } else {
        members_model(members.drop_last()).insert(
            members.last().0@,
            value_model(members.last().1),
        )
    }
}

impl View for JsonValue {
    type V = Json;

    open spec fn view(&self) -> Json {
        value_model(*self)
    }
}

/// The value that a `serde_json::Value` holds.
pub uninterp spec fn serde_model(v: serde_json::Value) -> Json;

/// The map that a list of members that `serde_json` holds stands for.
pub open spec fn serde_members(members: Seq<(String, serde_json::Value)>) -> Map<Seq<char>, Json>
    decreases members.len(),
{
    if members.len() == 0 {
        Map::empty()
    } else {
        serde_members(members.drop_last()).insert(
            members.last().0@,
            serde_model(members.last().1),
        )
    }
}

/// The compact text that `serde_json` gives a value.
pub uninterp spec fn compact_text(v: Json) -> Seq<char>;

/// The indented text that `serde_json` gives a value.
pub uninterp spec fn pretty_text(v: Json) -> Seq<char>;

/// The value that `serde_json` reads from a text, or nothing where it refuses
/// the text.
pub uninterp spec fn parsed_json(text: Seq<char>) -> Option<Json>;

/// The numeral of an integer: decimal digits, behind a minus sign or not.
pub open spec fn is_integer_numeral(s: Seq<char>) -> bool {
    let digits = if s.len() > 0 && s[0] == '-' {
        s.drop_first()
    } else {
        s
    };
    digits.len() > 0 && forall|i: int| 0 <= i < digits.len() ==> '0' <= #[trigger] digits[i] <= '9'
}

/// Whether all numbers in a value are integers, told by their texts: those of
/// floats have a point or an exponent.
pub open spec fn has_only_integers(v: Json) -> bool
    decreases v,
{
    match v {
        Json::Num(n) => is_integer_numeral(compact_text(Json::Num(n))),
        Json::Array(items) => forall|i: int|
            0 <= i < items.len() ==> has_only_integers(#[trigger] items[i]),
        Json::Object(m) => forall|key: Seq<char>| #[trigger]
            m.contains_key(key) ==> has_only_integers(m[key]),
        _ => true,
    }
}

/// The number that `serde_json` makes of an unsigned integer.
pub uninterp spec fn unsigned_number(n: u64) -> serde_json::Number;

/// `serde_json::Number::clone`: the copy is the same number.
pub assume_specification[ <serde_json::Number as Clone>::clone ](
    n: &serde_json::Number,
) -> (r: serde_json::Number)
    ensures
        r == *n,
;

/// `serde_json::Number::from` on a `u64`: the number depends on the integer
/// alone.
#[verifier::external_body]
fn number_from_u64(n: u64) -> (r: serde_json::Number)
    ensures
        r == unsigned_number(n),
{
    serde_json::Number::from(n)
}

/// `serde_json::Value::Null`: the value is `null`.
#[verifier::external_body]
fn serde_null() -> (r: serde_json::Value)
    ensures
        serde_model(r) == Json::Null,
{
    serde_json::Value::Null
}

/// `serde_json::Value::Bool`: the value is the truth value.
#[verifier::external_body]
fn serde_bool(b: bool) -> (r: serde_json::Value)
    ensures
        serde_model(r) == Json::Bool(b),
{
    serde_json::Value::Bool(b)
}

/// `serde_json::Value::Number`: the value is the number.
#[verifier::external_body]
fn serde_number(n: serde_json::Number) -> (r: serde_json::Value)
    ensures
        serde_model(r) == Json::Num(n),
{
    serde_json::Value::Number(n)
}

/// `serde_json::Value::String`: the value is the text.
#[verifier::external_body]
fn serde_string(s: String) -> (r: serde_json::Value)
    ensures
        serde_model(r) == Json::Text(s@),
{
    serde_json::Value::String(s)
}

/// `serde_json::Value::Array`: the value is the list of the items' values.
#[verifier::external_body]
fn serde_array(items: Vec<serde_json::Value>) -> (r: serde_json::Value)
    ensures
        serde_model(r) == Json::Array(
            Seq::new(items@.len(), |i: int| serde_model(items@[i])),
        ),
{
    serde_json::Value::Array(items)
}

/// `serde_json::Map::from_iter` and `serde_json::Value::Object`: the value maps
/// each key to its value, and of two members with one key the later counts.
#[verifier::external_body]
fn serde_object(members: Vec<(String, serde_json::Value)>) -> (r: serde_json::Value)
    ensures
        serde_model(r) == Json::Object(serde_members(members@)),
{
    serde_json::Value::Object(serde_json::Map::from_iter(members))
}

/// The `serde_json::Value` that stands for the same value.
fn to_serde(v: &JsonValue) -> (r: serde_json::Value)
    ensures
        serde_model(r) == v@,
    decreases v,
{
    match v {
        JsonValue::Null => serde_null(),
        JsonValue::Bool(b) => serde_bool(*b),
        JsonValue::Num(n) => serde_number(n.clone()),
        JsonValue::Text(s) => serde_string(s.clone()),
        JsonValue::Array(items) => {
            let mut out: Vec<serde_json::Value> = Vec::new();
            let mut i: usize = 0;
            while i < items.len()
                invariant
                    i <= items@.len(),
                    out@.len() == i,
                    *v == JsonValue::Array(*items),
                    forall|j: int| 0 <= j < i ==> serde_model(#[trigger] out@[j]) == items@[j]@,
                decreases items@.len() - i,
            {
                proof {
                    assert(decreases_to!(*v => v->Array_0));
                    assert(decreases_to!(v->Array_0 => items@));
                    assert(decreases_to!(items@ => items@[i as int]));
                }
                out.push(to_serde(&items[i]));
                i += 1;
            }
            let r = serde_array(out);
            assert(serde_model(r)->Array_0 =~= v@->Array_0);
            r
        },
        JsonValue::Object(members) => {
            let mut out: Vec<(String, serde_json::Value)> = Vec::new();
            let mut i: usize = 0;
            while i < members.len()
                invariant
                    i <= members@.len(),
                    *v == JsonValue::Object(*members),
                    out@.len() == i,
                    serde_members(out@) == members_model(members@.take(i as int)),
                decreases members@.len() - i,
            {
                let ghost before = out@;
                proof {
                    assert(decreases_to!(*v => v->Object_0));
                    assert(decreases_to!(v->Object_0 => members@));
                    assert(decreases_to!(members@ => members@[i as int]));
                    assert(decreases_to!(members@[i as int] => members@[i as int].1));
                }
                out.push((members[i].0.clone(), to_serde(&members[i].1)));
                i += 1;
                assert(members@.take(i as int).drop_last() =~= members@.take(i - 1));
                assert(out@.drop_last() =~= before);
            }
            assert(members@.take(i as int) =~= members@);
            serde_object(out)
        },
    }
}

/// `serde_json::to_string` on a `serde_json::Value`, which cannot fail: its
/// keys are strings. Members come out in the order of their keys, so the text
/// depends on the value alone.
#[verifier::external_body]
fn serde_compact(v: &serde_json::Value) -> (r: String)
    ensures
        r@ == compact_text(serde_model(*v)),
{
    serde_json::to_string(v).unwrap_or_default()
}

/// `serde_json::from_str` into a `serde_json::Value`: the value that the text
/// stands for, or an error where the text is refused. Both depend on the text
/// alone. Where the value has only integers, its compact text reads back as the
/// same value: it is nested no deeper than the text was, and strings, keys and
/// integers are written exactly. Of floats nothing is said: read without the
/// feature `float_roundtrip` they may differ in their last bit.
#[verifier::external_body]
pub(crate) fn parse_json(text: &str) -> (r: Result<serde_json::Value, serde_json::Error>)
    ensures
        match r {
            Ok(v) => {
                &&& parsed_json(text@) == Some(serde_model(v))
                &&& has_only_integers(serde_model(v)) ==> parsed_json(compact_text(serde_model(v)))
                    == Some(serde_model(v))
            },
            Err(_) => parsed_json(text@) is None,
        },
{
    serde_json::from_str(text)
}

/// `serde_json::to_string_pretty` on a `serde_json::Value`, which cannot fail:
/// its keys are strings. Members come out in the order of their keys, so the
/// text depends on the value alone. It differs from the compact text in blanks
/// between tokens only, so it reads back as that does.
#[verifier::external_body]
pub(crate) fn pretty_json(v: &serde_json::Value) -> (r: String)
    ensures
        r@ == pretty_text(serde_model(*v)),
        parsed_json(r@) == parsed_json(compact_text(serde_model(*v))),
{
    serde_json::to_string_pretty(v).unwrap_or_default()
}

impl JsonValue {
    /// The compact JSON text of the value.
    pub fn to_text(&self) -> (r: String)
        ensures
            r@ == compact_text(self@),
    {
        serde_compact(&to_serde(self))
    }

    /// The indented JSON text of the value.
    pub fn to_pretty_text(&self) -> (r: String)
        ensures
            r@ == pretty_text(self@),
    {
        pretty_json(&to_serde(self))
    }

    /// A list of values.
    pub fn list(items: Vec<JsonValue>) -> (r: JsonValue)
        ensures
            r@ == Json::Array(seq_views(items@)),
    {
        let r = JsonValue::Array(items);
        assert(r@->Array_0 =~= seq_views(items@));
        r
    }

    /// The value of an unsigned integer.
    pub fn unsigned(n: u64) -> (r: JsonValue)
        ensures
            r@ == Json::Num(unsigned_number(n)),
    {
        JsonValue::Num(number_from_u64(n))
    }

    /// An object without members.
    pub fn empty_object() -> (r: JsonValue)
        ensures
            r@ == Json::Object(Map::empty()),
    {
        let members: Vec<(String, JsonValue)> = Vec::new();
        assert(members_model(members@) == Map::<Seq<char>, Json>::empty());
        JsonValue::Object(members)
    }

    /// An object with one more member.
    pub fn with_member(self, key: &str, value: JsonValue) -> (r: JsonValue)
        requires
            self@ is Object,
        ensures
            r@ == Json::Object(self@->Object_0.insert(key@, value@)),
    {
        match self {
            JsonValue::Object(list) => {
                let ghost before = list@;
                let mut members = list;
                members.push((key.to_owned(), value));
                assert(members@.drop_last() =~= before);
                assert(members_model(members@) == members_model(before).insert(key@, value@));
                JsonValue::Object(members)
            },
            other => other,
        }
    }

    /// An object with one member.
    pub fn object(key: &str, value: JsonValue) -> (r: JsonValue)
        ensures
            r@ == object_of(key@, value@),
    {
        Self::empty_object().with_member(key, value)
    }

    /// Whether the value is `null`.
    pub fn is_null(&self) -> (r: bool)
        ensures
            r == (self@ is Null),
    {
        match self {
            JsonValue::Null => true,
            _ => false,
        }
    }

    /// The text of a string value.
    pub fn as_str(&self) -> (r: Option<&str>)
        ensures
            match r {
                Some(s) => self@ == Json::Text(s@),
                None => self@.text() is None,
            },
    {
        match self {
            JsonValue::Text(s) => Some(s.as_str()),
            _ => None,
        }
    }

    /// The member of an object under `key`.
    pub fn get(&self, key: &str) -> (r: Option<&JsonValue>)
        ensures
            match r {
                Some(v) => self@.member(key@) == Some(v@),
                None => self@.member(key@) is None,
            },
    {
        match self {
            JsonValue::Object(members) => {
                let mut i: usize = members.len();
                assert(members@.take(i as int) =~= members@);
                while i > 0
                    invariant
                        i <= members@.len(),
                        self@ == Json::Object(members_model(members@)),
                        self@.member(key@) == Json::Object(
                            members_model(members@.take(i as int)),
                        ).member(key@),
                    decreases i,
                {
                    let ghost part = members@.take(i as int);
                    i -= 1;
                    assert(part.drop_last() =~= members@.take(i as int));
                    assert(part.last() == members@[i as int]);
                    if same_text(members[i].0.as_str(), key) {
                        return Some(&members[i].1);
                    }
                }
                None
            },
            _ => None,
        }
    }

    /// The text of the member under `key`, where that member is a string.
    pub fn get_str(&self, key: &str) -> (r: Option<&str>)
        ensures
            match r {
                Some(s) => self@.text_member(key@) == Some(s@),
                None => self@.text_member(key@) is None,
            },
    {
        match self.get(key) {
            Some(v) => v.as_str(),
            None => None,
        }
    }
}

impl Duplicate for JsonValue {
    fn duplicate(&self) -> (r: Self)
        decreases self,
    {
        match self {
            JsonValue::Null => JsonValue::Null,
            JsonValue::Bool(b) => JsonValue::Bool(*b),
            JsonValue::Num(n) => JsonValue::Num(n.clone()),
            JsonValue::Text(s) => JsonValue::Text(s.clone()),
            JsonValue::Array(items) => {
                let mut out: Vec<JsonValue> = Vec::new();
                let mut i: usize = 0;
                while i < items.len()
                    invariant
                        i <= items@.len(),
                        out@.len() == i,
                        *self == JsonValue::Array(*items),
                        forall|j: int| 0 <= j < i ==> (#[trigger] out@[j])@ == items@[j]@,
                    decreases items@.len() - i,
                {
                    proof {
                        assert(decreases_to!(*self => self->Array_0));
                        assert(decreases_to!(self->Array_0 => items@));
                        assert(decreases_to!(items@ => items@[i as int]));
                    }
                    out.push(items[i].duplicate());
                    i += 1;
                }
                let r = JsonValue::Array(out);
                assert(r@->Array_0 =~= self@->Array_0);
                r
            },
            JsonValue::Object(members) => {
                let mut out: Vec<(String, JsonValue)> = Vec::new();
                let mut i: usize = 0;
                while i < members.len()
                    invariant
                        i <= members@.len(),
                        *self == JsonValue::Object(*members),
                        out@.len() == i,
                        members_model(out@) == members_model(members@.take(i as int)),
                    decreases members@.len() - i,
                {
                    let ghost before = out@;
                    proof {
                        assert(decreases_to!(*self => self->Object_0));
                        assert(decreases_to!(self->Object_0 => members@));
                        assert(decreases_to!(members@ => members@[i as int]));
                        assert(decreases_to!(members@[i as int] => members@[i as int].1));
                    }
                    let member = (members[i].0.clone(), members[i].1.duplicate());
                    out.push(member);
                    i += 1;
                    assert(members@.take(i as int).drop_last() =~= members@.take(i - 1));
                    assert(out@.drop_last() =~= before);
                }
                assert(members@.take(i as int) =~= members@);
                JsonValue::Object(out)
            },
        }
    }
}

impl Clone for JsonValue {
    fn clone(&self) -> (r: Self)
        ensures
            r@ == self@,
    {
        self.duplicate()
    }
}

} // verus!
