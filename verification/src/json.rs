//! JSON documents as plain values, read and written by `serde_json`.

use vstd::prelude::*;

use crate::json_text::json_quoted;
use crate::text::{spec_decimal, str_eq};

verus! {

broadcast use vstd::string::group_string_axioms;

#[verifier::external_type_specification]
#[verifier::external_body]
pub struct ExJsonNumber(serde_json::Number);

#[verifier::external_type_specification]
#[verifier::external_body]
pub struct ExJsonValue(serde_json::Value);

/// A JSON value. Object members keep the document's order.
pub enum JsonValue {
    Null,
    Bool(bool),
    Number(serde_json::Number),
    /// An unsigned integer the library writes (numbers read from a document
    /// stay `Number`).
    Unsigned(usize),
    Str(String),
    Array(Vec<JsonValue>),
    Object(Vec<(String, JsonValue)>),
}

/// The mathematical value of a [`JsonValue`].
pub enum JsonSpec {
    Null,
    Bool(bool),
    Number(serde_json::Number),
    Unsigned(usize),
    Str(Seq<char>),
    Array(Seq<JsonSpec>),
    Object(Seq<(Seq<char>, JsonSpec)>),
}

impl JsonValue {
    pub open spec fn spec_view(self) -> JsonSpec
        decreases self,
    {
        match self {
            JsonValue::Null => JsonSpec::Null,
            JsonValue::Bool(b) => JsonSpec::Bool(b),
            JsonValue::Number(n) => JsonSpec::Number(n),
            JsonValue::Unsigned(n) => JsonSpec::Unsigned(n),
            JsonValue::Str(s) => JsonSpec::Str(s@),
            JsonValue::Array(items) => JsonSpec::Array(items_view(items@)),
            JsonValue::Object(members) => JsonSpec::Object(members_view(members@)),
        }
    }
}

pub open spec fn items_view(items: Seq<JsonValue>) -> Seq<JsonSpec>
    decreases items,
{
    if items.len() == 0 {
        seq![]
    } else {
        seq![items[0].spec_view()] + items_view(items.drop_first())
    }
}

pub open spec fn members_view(members: Seq<(String, JsonValue)>) -> Seq<(Seq<char>, JsonSpec)>
    decreases members,
{
    if members.len() == 0 {
        seq![]
    } else {
        seq![(members[0].0@, members[0].1.spec_view())] + members_view(members.drop_first())
    }
}

impl View for JsonValue {
    type V = JsonSpec;

    open spec fn view(&self) -> JsonSpec {
        self.spec_view()
    }
}

/// The document `text` holds, or `None` when it is not valid JSON. Member
/// order is the document's.
pub uninterp spec fn json_document(text: Seq<char>) -> Option<JsonSpec>;

/// The pretty-printed text of a document: two-space indentation, members in
/// order.
pub uninterp spec fn json_pretty(doc: JsonSpec) -> Seq<char>;

#[verifier::external_body]
fn from_serde(v: serde_json::Value) -> JsonValue {
    match v {
        serde_json::Value::Null => JsonValue::Null,
        serde_json::Value::Bool(b) => JsonValue::Bool(b),
        serde_json::Value::Number(n) => JsonValue::Number(n),
        serde_json::Value::String(s) => JsonValue::Str(s),
        serde_json::Value::Array(a) => JsonValue::Array(a.into_iter().map(from_serde).collect()),
        serde_json::Value::Object(o) => JsonValue::Object(o.into_iter().map(|(k, v)| (k, from_serde(v))).collect()),
    }
}

#[verifier::external_body]
fn to_serde(v: &JsonValue) -> serde_json::Value {
    match v {
        JsonValue::Null => serde_json::Value::Null,
        JsonValue::Bool(b) => serde_json::Value::Bool(*b),
        JsonValue::Number(n) => serde_json::Value::Number(n.clone()),
        JsonValue::Unsigned(n) => serde_json::Value::Number((*n).into()),
        JsonValue::Str(s) => serde_json::Value::String(s.clone()),
        JsonValue::Array(a) => serde_json::Value::Array(a.iter().map(to_serde).collect()),
        JsonValue::Object(o) => serde_json::Value::Object(o.iter().map(|(k, v)| (k.clone(), to_serde(v))).collect()),
    }
}

/// `serde_json::from_str` into a `serde_json::Value`, converted member for
/// member into a [`JsonValue`]. The contract names the result; on failure it
/// carries `serde_json`'s message.
#[verifier::external_body]
pub fn parse_json(text: &str) -> (r: Result<JsonValue, String>)
    ensures
        match r {
            Ok(v) => json_document(text@) == Some(v@),
            Err(_) => json_document(text@) is None,
        },
{
    serde_json::from_str::<serde_json::Value>(text).map(from_serde).map_err(|e| e.to_string())
}

/// `serde_json::to_string_pretty` on the document converted back into a
/// `serde_json::Value`. Serializing a value with string member names cannot
/// fail; the contract names the result.
#[verifier::external_body]
pub fn render_json_pretty(doc: &JsonValue) -> (r: String)
    ensures
        r@ == json_pretty(doc@),
{
    serde_json::to_string_pretty(&to_serde(doc)).unwrap_or_default()
}

/// The compact text of a document (no whitespace), members in order.
pub uninterp spec fn json_compact(doc: JsonSpec) -> Seq<char>;

/// The text of a value of a flat object: a string, `null`, or an unsigned
/// integer; `None` for any other value.
pub open spec fn flat_value_text(v: JsonSpec) -> Option<Seq<char>> {
    match v {
        JsonSpec::Str(s) => Some(json_quoted(s)),
        JsonSpec::Null => Some("null"@),
        JsonSpec::Unsigned(n) => Some(spec_decimal(n as nat)),
        _ => None,
    }
}

/// An object whose member names are distinct and whose values are strings,
/// `null` or unsigned integers.
pub open spec fn flat_object(doc: JsonSpec) -> bool {
    match doc {
        JsonSpec::Object(ms) => {
            &&& forall|i: int| 0 <= i < ms.len() ==> (#[trigger] flat_value_text(ms[i].1)) is Some
            &&& forall|i: int, j: int| 0 <= i < j < ms.len() ==> #[trigger] ms[i].0 != #[trigger] ms[j].0
        },
        _ => false,
    }
}

/// The members of a flat object written compactly: `"name":value`, comma
/// separated.
pub open spec fn flat_members_text(ms: Seq<(Seq<char>, JsonSpec)>) -> Seq<char>
    decreases ms.len(),
{
    if ms.len() == 0 {
        seq![]
    } else {
        let member = json_quoted(ms.last().0) + seq![':'] + flat_value_text(ms.last().1)->0;
        if ms.len() == 1 {
            member
        } else {
            flat_members_text(ms.drop_last()) + seq![','] + member
        }
    }
}

/// A flat object written compactly: `{`, its members, `}`.
pub open spec fn flat_object_text(doc: JsonSpec) -> Seq<char> {
    match doc {
        JsonSpec::Object(ms) => seq!['{'] + flat_members_text(ms) + seq!['}'],
        _ => seq![],
    }
}

/// `serde_json::to_string` on the document converted into a
/// `serde_json::Value`: the compact writer, with object members in order
/// (the `preserve_order` feature). Serializing a `Value` cannot fail; the
/// contract names the result, and spells it out for a flat object: `{`, then
/// each member as its quoted, escaped name, `:` and its value (a quoted,
/// escaped string, `null`, or the decimal digits of the integer), separated
/// by `,`, then `}`.
#[verifier::external_body]
pub fn render_json(doc: &JsonValue) -> (r: String)
    ensures
        r@ == json_compact(doc@),
        flat_object(doc@) ==> r@ == flat_object_text(doc@),
{
    serde_json::to_string(&to_serde(doc)).unwrap_or_default()
}

/// The value of the first member named `key`, when `v` is an object that has
/// one (`serde_json::Value::get` with a string index).
pub open spec fn spec_member(v: JsonSpec, key: Seq<char>) -> Option<JsonSpec> {
    match v {
        JsonSpec::Object(members) => member_of(members, key),
        _ => None,
    }
}

pub open spec fn member_of(members: Seq<(Seq<char>, JsonSpec)>, key: Seq<char>) -> Option<JsonSpec>
    decreases members.len(),
{
    if members.len() == 0 {
        None
    } else if members[0].0 == key {
        Some(members[0].1)
    } else {
        member_of(members.drop_first(), key)
    }
}

/// The index of the first member named `key`.
pub open spec fn member_index(members: Seq<(Seq<char>, JsonSpec)>, key: Seq<char>) -> Option<int>
    decreases members.len(),
{
    if members.len() == 0 {
        None
    } else if members[0].0 == key {
        Some(0)
    } else {
        match member_index(members.drop_first(), key) {
            Some(i) => Some(i + 1),
            None => None,
        }
    }
}

/// The string a value holds, if it is a string.
pub open spec fn spec_as_str(v: JsonSpec) -> Option<Seq<char>> {
    match v {
        JsonSpec::Str(s) => Some(s),
        _ => None,
    }
}

/// The members of an object, if the value is one.
pub open spec fn spec_as_object(v: JsonSpec) -> Option<Seq<(Seq<char>, JsonSpec)>> {
    match v {
        JsonSpec::Object(m) => Some(m),
        _ => None,
    }
}

pub proof fn lemma_members_view(members: Seq<(String, JsonValue)>)
    ensures
        members_view(members).len() == members.len(),
        forall|i: int|
            0 <= i < members.len() ==> #[trigger] members_view(members)[i] == (members[i].0@, members[i].1@),
    decreases members.len(),
{
    if members.len() > 0 {
        lemma_members_view(members.drop_first());
        assert forall|i: int| 0 <= i < members.len() implies #[trigger] members_view(members)[i] == (
            members[i].0@,
            members[i].1@,
        ) by {
            if i > 0 {
                assert(members[i] == members.drop_first()[i - 1]);
            }
        }
    }
}

pub proof fn lemma_member_index(members: Seq<(Seq<char>, JsonSpec)>, key: Seq<char>)
    ensures
        match member_index(members, key) {
            Some(i) => 0 <= i < members.len() && members[i].0 == key && member_of(members, key) == Some(members[i].1)
                && forall|j: int| 0 <= j < i ==> #[trigger] members[j].0 != key,
            None => member_of(members, key) is None && forall|j: int| 0 <= j < members.len() ==> #[trigger] members[j].0 != key,
        },
    decreases members.len(),
{
    if members.len() > 0 {
        lemma_member_index(members.drop_first(), key);
        assert forall|j: int| 1 <= j < members.len() implies #[trigger] members[j] == members.drop_first()[j - 1] by {}
    }
}

/// The index of the first member named `key`.
pub fn find_member(members: &Vec<(String, JsonValue)>, key: &str) -> (r: Option<usize>)
    ensures
        match member_index(members_view(members@), key@) {
            Some(i) => r == Some(i as usize),
            None => r is None,
        },
        r matches Some(i) ==> member_index(members_view(members@), key@) == Some(i as int) && i < members.len(),
{
    let ghost mv = members_view(members@);
    proof {
        lemma_members_view(members@);
        lemma_member_index(mv, key@);
    }
    let mut i: usize = 0;
    while i < members.len()
        invariant
            i <= members.len(),
            mv == members_view(members@),
            mv.len() == members.len(),
            forall|j: int| 0 <= j < members.len() ==> #[trigger] mv[j] == (members@[j].0@, members@[j].1@),
            forall|j: int| 0 <= j < i ==> #[trigger] mv[j].0 != key@,
            match member_index(mv, key@) {
                Some(k) => i <= k < mv.len() && mv[k].0 == key@,
                None => true,
            },
        decreases members.len() - i,
    {
        assert(mv[i as int].0 == members@[i as int].0@);
        if str_eq(members[i].0.as_str(), key) {
            proof {
                lemma_member_index(mv, key@);
            }
            return Some(i);
        }
        i = i + 1;
    }
    None
}

/// The value of the member named `key`, when `v` is an object that has one.
pub fn member<'a>(v: &'a JsonValue, key: &str) -> (r: Option<&'a JsonValue>)
    ensures
        match spec_member(v@, key@) {
            Some(m) => r matches Some(x) && x@ == m,
            None => r is None,
        },
{
    match v {
        JsonValue::Object(members) => {
            proof {
                lemma_members_view(members@);
                lemma_member_index(members_view(members@), key@);
            }
            match find_member(members, key) {
                Some(i) => {
                    assert(members_view(members@)[i as int] == (members@[i as int].0@, members@[i as int].1@));
                    Some(&members[i].1)
                },
                None => None,
            }
        },
        _ => None,
    }
}

/// The string a value holds, if it is a string.
pub fn as_str(v: &JsonValue) -> (r: Option<&str>)
    ensures
        match spec_as_str(v@) {
            Some(s) => r matches Some(t) && t@ == s,
            None => r is None,
        },
{
    match v {
        JsonValue::Str(s) => Some(s.as_str()),
        _ => None,
    }
}

} // verus!
