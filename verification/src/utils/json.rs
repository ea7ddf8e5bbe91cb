//! JSON values: decoding, lookup, and flattening.

use crate::error::{ErrorKind, MeltError};
use crate::utils::text::same_text;
use vstd::prelude::*;
use vstd::slice::slice_subrange;

verus! {

/// `serde_json::Value`, as the decoder gives it and the batch builder takes it.
#[verifier::external_type_specification]
#[verifier::external_body]
pub struct ExValue(serde_json::Value);

/// `serde_json::Number`: a number is kept as it was decoded where it is no whole number.
#[verifier::external_type_specification]
#[verifier::external_body]
pub struct ExNumber(serde_json::Number);

/// `serde_json::Error`, of which only the text is used.
#[verifier::external_type_specification]
#[verifier::external_body]
pub struct ExJsonError(serde_json::Error);

/// `Clone` of `serde_json::Number`: the copy is the number.
pub assume_specification[ <serde_json::Number as Clone>::clone ](n: &serde_json::Number) -> (r:
    serde_json::Number)
    ensures
        r == *n,
;

/// What a JSON value is, as mathematics sees it.
pub enum JsonView {
    Null,
    Bool(bool),
    /// A whole number, from `i64::MIN` to `u64::MAX`.
    Int(int),
    /// A number that is no whole number in that range.
    Float(serde_json::Number),
    Text(Seq<char>),
    Array(Seq<JsonView>),
    /// The members in their order; a name may occur more than once.
    Object(Seq<(Seq<char>, JsonView)>),
}

/// A JSON value.
#[derive(Debug, PartialEq, Eq)]
pub enum Json {
    Null,
    Bool(bool),
    /// A whole number that fits 64 signed bits.
    Int(i64),
    /// A whole number that is written without a sign; the decoder uses it above `i64::MAX`.
    UInt(u64),
    /// Any other number, as serde_json holds it.
    Float(serde_json::Number),
    String(String),
    Array(Vec<Json>),
    /// The members in their order. Where a name occurs twice, a lookup finds the first.
    Object(Vec<(String, Json)>),
}

/// The view of a value.
pub open spec fn json_view(j: Json) -> JsonView
    decreases j,
{
    match j {
        Json::Null => JsonView::Null,
        Json::Bool(b) => JsonView::Bool(b),
        Json::Int(i) => JsonView::Int(i as int),
        Json::UInt(u) => JsonView::Int(u as int),
        Json::Float(n) => JsonView::Float(n),
        Json::String(s) => JsonView::Text(s@),
        Json::Array(v) => JsonView::Array(
            Seq::new(
                v@.len(),
                |i: int|
                    if 0 <= i < v@.len() {
                        json_view(v@[i])
                    } else {
                        JsonView::Null
                    },
            ),
        ),
        Json::Object(m) => JsonView::Object(
            Seq::new(
                m@.len(),
                |i: int|
                    if 0 <= i < m@.len() {
                        (m@[i].0@, json_view(m@[i].1))
                    } else {
                        (Seq::<char>::empty(), JsonView::Null)
                    },
            ),
        ),
    }
}

impl View for Json {
    type V = JsonView;

    open spec fn view(&self) -> JsonView {
        json_view(*self)
    }
}

/// The views of a sequence of values.
pub open spec fn json_views(s: Seq<Json>) -> Seq<JsonView> {
    Seq::new(s.len(), |i: int| s[i]@)
}

/// The views of the members of an object.
pub open spec fn members_view(m: Seq<(String, Json)>) -> Seq<(Seq<char>, JsonView)> {
    Seq::new(m.len(), |i: int| (m[i].0@, m[i].1@))
}

/// The view of an object is the views of its members.
pub proof fn lemma_view_of_object(m: Vec<(String, Json)>)
    ensures
        Json::Object(m)@ == JsonView::Object(members_view(m@)),
{
    assert(Json::Object(m)@->Object_0 =~= members_view(m@));
}

/// The view of an array is the views of its items.
pub proof fn lemma_view_of_array(v: Vec<Json>)
    ensures
        Json::Array(v)@ == JsonView::Array(json_views(v@)),
{
    assert(Json::Array(v)@->Array_0 =~= json_views(v@));
}

/// The `serde_json::Value`s that stand for a sequence of values.
pub open spec fn serde_forms(s: Seq<JsonView>) -> Seq<serde_json::Value> {
    Seq::new(s.len(), |i: int| serde_form(s[i]))
}

/// What `serde_json::from_slice` reads from `bytes`: the value, or the error that it reports.
pub uninterp spec fn json_text_value(bytes: Seq<u8>) -> Result<JsonView, serde_json::Error>;

/// The text that a `serde_json::Error` is displayed as.
pub uninterp spec fn json_error_text(e: serde_json::Error) -> Seq<char>;

/// The text that `String::from_utf8_lossy` makes of bytes that are not the UTF-8 of a text.
pub uninterp spec fn lossy_text_of(bytes: Seq<u8>) -> Seq<char>;

/// Whether bytes are the UTF-8 of a text.
pub open spec fn is_utf8(bytes: Seq<u8>) -> bool {
    exists|text: Seq<char>| vstd::utf8::encode_utf8(text) == bytes
}

/// Bytes as text: the text of which they are the UTF-8, and where there is none what
/// `String::from_utf8_lossy` makes of them.
pub open spec fn text_of(bytes: Seq<u8>) -> Seq<char> {
    if is_utf8(bytes) {
        choose|text: Seq<char>| vstd::utf8::encode_utf8(text) == bytes
    } else {
        lossy_text_of(bytes)
    }
}

/// The UTF-8 of a text is read as that text.
pub proof fn lemma_text_of_utf8(text: Seq<char>)
    ensures
        is_utf8(vstd::utf8::encode_utf8(text)),
        text_of(vstd::utf8::encode_utf8(text)) == text,
{
    let bytes = vstd::utf8::encode_utf8(text);
    let found = choose|t: Seq<char>| vstd::utf8::encode_utf8(t) == bytes;
    vstd::utf8::encode_utf8_decode_utf8(text);
    vstd::utf8::encode_utf8_decode_utf8(found);
}

/// The message of the failure to decode `bytes`: what the decoder says, and the text that
/// could not be decoded.
pub open spec fn decode_failure(bytes: Seq<u8>) -> Seq<char> {
    match json_text_value(bytes) {
        Err(e) => json_error_text(e) + " in: "@ + text_of(bytes),
        Ok(_) => Seq::empty(),
    }
}

/// What a `serde_json::Value` holds.
pub uninterp spec fn value_model(v: serde_json::Value) -> JsonView;

/// The `serde_json::Value` that stands for a value.
pub uninterp spec fn serde_form(v: JsonView) -> serde_json::Value;

/// A number as a 64-bit float, cast to `i64`: `serde_json::Number::as_f64` and Rust's `as`.
pub uninterp spec fn number_whole(n: serde_json::Number) -> i64;

/// `serde_json::from_slice` at the type `serde_json::Value`: decodes one JSON text.
#[verifier::external_body]
fn decode_value(bytes: &[u8]) -> (r: Result<serde_json::Value, serde_json::Error>)
    ensures
        match r {
            Ok(v) => json_text_value(bytes@) == Ok::<JsonView, serde_json::Error>(value_model(v)),
            Err(e) => json_text_value(bytes@) == Err::<JsonView, serde_json::Error>(e),
        },
{
    serde_json::from_slice(bytes)
}

/// `Display` of `serde_json::Error`, through `to_string`.
#[verifier::external_body]
fn error_text(e: &serde_json::Error) -> (s: String)
    ensures
        s@ == json_error_text(*e),
{
    e.to_string()
}

/// `serde_json::Number::as_f64`, cast to `i64` as Rust's `as` casts a float: toward zero, and
/// to the nearest end of the range where the number lies beyond it.
#[verifier::external_body]
pub(crate) fn whole_of_number(n: &serde_json::Number) -> (r: i64)
    ensures
        r == number_whole(*n),
{
    n.as_f64().map(|v| v as i64).unwrap_or(0)
}

/// Turns a `serde_json::Value` into the value that it holds: each variant into the variant of
/// the same name, a number into `Int` where `as_i64` gives it, else into `UInt` where `as_u64`
/// gives it, else into `Float`.
#[verifier::external_body]
pub(crate) fn from_serde(v: serde_json::Value) -> (r: Json)
    ensures
        r@ == value_model(v),
{
    match v {
        serde_json::Value::Null => Json::Null,
        serde_json::Value::Bool(b) => Json::Bool(b),
        serde_json::Value::Number(n) => match (n.as_i64(), n.as_u64()) {
            (Some(i), _) => Json::Int(i),
            (None, Some(u)) => Json::UInt(u),
            (None, None) => Json::Float(n),
        },
        serde_json::Value::String(s) => Json::String(s),
        serde_json::Value::Array(a) => Json::Array(a.into_iter().map(from_serde).collect()),
        serde_json::Value::Object(m) => Json::Object(
            m.into_iter().map(|(k, v)| (k, from_serde(v))).collect(),
        ),
    }
}

/// Turns a value into a `serde_json::Value`: each variant into the variant of the same name,
/// `Int` and `UInt` into the number that `From` makes of them. The members of an object are
/// collected into serde_json's map, where the last member of a name stands for that name.
#[verifier::external_body]
pub(crate) fn to_serde(j: &Json) -> (r: serde_json::Value)
    ensures
        r == serde_form(j@),
{
    match j {
        Json::Null => serde_json::Value::Null,
        Json::Bool(b) => serde_json::Value::Bool(*b),
        Json::Int(i) => serde_json::Value::from(*i),
        Json::UInt(u) => serde_json::Value::from(*u),
        Json::Float(n) => serde_json::Value::Number(n.clone()),
        Json::String(s) => serde_json::Value::String(s.clone()),
        Json::Array(a) => serde_json::Value::Array(a.iter().map(to_serde).collect()),
        Json::Object(m) => serde_json::Value::Object(
            m.iter().map(|(k, v)| (k.clone(), to_serde(v))).collect(),
        ),
    }
}

/// `String::from_utf8_lossy`: bytes as text. Bytes that are the UTF-8 of a text give that text.
#[verifier::external_body]
fn lossy_text(bytes: &[u8]) -> (s: String)
    ensures
        !is_utf8(bytes@) ==> s@ == lossy_text_of(bytes@),
        forall|text: Seq<char>| vstd::utf8::encode_utf8(text) == bytes@ ==> s@ == text,
{
    String::from_utf8_lossy(bytes).into_owned()
}

/// Decodes one JSON text. The message of a failure holds what the decoder says and the text
/// itself.
pub fn decode(bytes: &[u8]) -> (r: Result<Json, MeltError>)
    ensures
        match json_text_value(bytes@) {
            Ok(value) => r matches Ok(j) && j@ == value,
            Err(_) => r matches Err(e) && e.kind == ErrorKind::BadInput && e.message@
                == decode_failure(bytes@),
        },
{
    match decode_value(bytes) {
        Ok(v) => Ok(from_serde(v)),
        Err(e) => {
            let mut message = error_text(&e);
            message.append(" in: ");
            let text = lossy_text(bytes);
            proof {
                if is_utf8(bytes@) {
                    let found = choose|t: Seq<char>| vstd::utf8::encode_utf8(t) == bytes@;
                    assert(text@ == found);
                }
            }
            message.append(text.as_str());
            Err(MeltError::bad_input(message.as_str()))
        },
    }
}

/// The text that was handed to the decoder stands at the end of the message of its failure,
/// where the bytes are the UTF-8 of a text.
pub proof fn lemma_failure_holds_the_text(text: Seq<char>)
    requires
        json_text_value(vstd::utf8::encode_utf8(text)) is Err,
    ensures
        decode_failure(vstd::utf8::encode_utf8(text)) == json_error_text(
            json_text_value(vstd::utf8::encode_utf8(text))->Err_0,
        ) + " in: "@ + text,
{
    lemma_text_of_utf8(text);
}

/// How many bytes stand before the first line feed.
pub open spec fn line_length(bytes: Seq<u8>) -> nat
    decreases bytes.len(),
{
    if bytes.len() > 0 && bytes[0] != 10 {
        1 + line_length(bytes.drop_first())
    } else {
        0
    }
}

/// The first line of `bytes` without its end: without the line feed, and without a carriage
/// return that stands before the line feed.
pub open spec fn first_line(bytes: Seq<u8>) -> Seq<u8> {
    let n = line_length(bytes) as int;
    if n < bytes.len() && n > 0 && bytes[n - 1] == 13 {
        bytes.take(n - 1)
    } else {
        bytes.take(n)
    }
}

/// What follows the first line.
pub open spec fn after_first_line(bytes: Seq<u8>) -> Seq<u8> {
    let n = line_length(bytes) as int;
    if n < bytes.len() {
        bytes.skip(n + 1)
    } else {
        Seq::empty()
    }
}

/// The values of a text that holds one JSON text on each line; empty lines count for nothing.
/// Where a line is not empty and no JSON text, the message of the failure to decode the first
/// such line.
pub open spec fn ndjson_values(bytes: Seq<u8>) -> Result<Seq<JsonView>, Seq<char>>
    decreases bytes.len(),
{
    if bytes.len() == 0 {
        Ok(Seq::empty())
    } else {
        let line = first_line(bytes);
        let rest = ndjson_values(after_first_line(bytes));
        if line.len() == 0 {
            rest
        } else {
            match (json_text_value(line), rest) {
                (Err(_), _) => Err(decode_failure(line)),
                (Ok(v), Ok(vs)) => Ok(seq![v] + vs),
                (Ok(_), Err(message)) => Err(message),
            }
        }
    }
}

/// The values of one JSON text: the items of an array, or the value alone; the message of the
/// failure where it cannot be decoded.
pub open spec fn json_values(bytes: Seq<u8>) -> Result<Seq<JsonView>, Seq<char>> {
    match json_text_value(bytes) {
        Ok(JsonView::Array(items)) => Ok(items),
        Ok(v) => Ok(seq![v]),
        Err(_) => Err(decode_failure(bytes)),
    }
}

/// Whether `r` is the outcome that `expected` asks for: the values, or `BadInput` with the
/// message.
pub open spec fn is_decoded(
    expected: Result<Seq<JsonView>, Seq<char>>,
    r: Result<Vec<Json>, MeltError>,
) -> bool {
    match expected {
        Ok(values) => r matches Ok(records) && json_views(records@) == values,
        Err(message) => r matches Err(e) && e.kind == ErrorKind::BadInput && e.message@ == message,
    }
}

/// Decodes a body that holds one JSON text on each line. Empty lines are skipped. Fails at the
/// first line that is no JSON text, with a message that holds the line.
pub fn parse_lines(body: &[u8]) -> (r: Result<Vec<Json>, MeltError>)
    ensures
        is_decoded(ndjson_values(body@), r),
{
    let mut records: Vec<Json> = Vec::new();
    let mut start: usize = 0;
    proof {
        assert(body@.skip(0) =~= body@);
        assert(json_views(records@) =~= Seq::<JsonView>::empty());
    }
    while start < body.len()
        invariant
            start <= body.len(),
            ndjson_values(body@) == (match ndjson_values(body@.skip(start as int)) {
                Ok(vs) => Ok::<Seq<JsonView>, Seq<char>>(json_views(records@) + vs),
                Err(message) => Err(message),
            }),
        decreases body.len() - start,
    {
        let ghost rest = body@.skip(start as int);
        let mut end: usize = start;
        while end < body.len() && body[end] != 10
            invariant
                start <= end <= body.len(),
                rest == body@.skip(start as int),
                line_length(rest) == (end - start) + line_length(body@.skip(end as int)),
            decreases body.len() - end,
        {
            proof {
                assert(body@.skip(end as int).drop_first() =~= body@.skip(end as int + 1));
            }
            end = end + 1;
        }
        let has_feed = end < body.len();
        let line_end = if has_feed && end > start && body[end - 1] == 13 {
            end - 1
        } else {
            end
        };
        let next = if has_feed {
            end + 1
        } else {
            end
        };
        let line = slice_subrange(body, start, line_end);
        proof {
            assert(rest.take(line_end - start) =~= body@.subrange(start as int, line_end as int));
            assert(line@ == first_line(rest));
            if has_feed {
                assert(rest.skip(end - start + 1) =~= body@.skip(next as int));
            } else {
                assert(body@.skip(next as int) =~= Seq::<u8>::empty());
            }
            assert(after_first_line(rest) == body@.skip(next as int));
        }
        if line.len() > 0 {
            match decode(line) {
                Ok(value) => {
                    let ghost before = json_views(records@);
                    records.push(value);
                    proof {
                        assert(json_views(records@) =~= before.push(value@));
                        match ndjson_values(body@.skip(next as int)) {
                            Ok(vs) => {
                                assert(before + (seq![value@] + vs) =~= before.push(value@) + vs);
                            },
                            Err(_) => {},
                        }
                    }
                },
                Err(e) => {
                    return Err(e);
                },
            }
        }
        start = next;
    }
    proof {
        assert(json_views(records@) + Seq::<JsonView>::empty() =~= json_views(records@));
    }
    Ok(records)
}

/// Decodes a body that holds one JSON text: the items of an array, or the one value.
pub fn parse_json(body: &[u8]) -> (r: Result<Vec<Json>, MeltError>)
    ensures
        is_decoded(json_values(body@), r),
{
    match decode(body) {
        Ok(Json::Array(items)) => {
            proof {
                lemma_view_of_array(items);
            }
            Ok(items)
        },
        Ok(value) => {
            let ghost view = value@;
            let mut records: Vec<Json> = Vec::new();
            records.push(value);
            proof {
                assert(json_views(records@) =~= seq![view]);
            }
            Ok(records)
        },
        Err(e) => Err(e),
    }
}

/// The place of the first member called `name`, or the length where there is none.
pub open spec fn member_index(members: Seq<(Seq<char>, JsonView)>, name: Seq<char>) -> int
    decreases members.len(),
{
    if members.len() == 0 {
        0
    } else if members[0].0 == name {
        0
    } else {
        1 + member_index(members.drop_first(), name)
    }
}

/// The first member of an object that is called `name`.
pub open spec fn member(v: JsonView, name: Seq<char>) -> Option<JsonView> {
    match v {
        JsonView::Object(m) => if member_index(m, name) < m.len() {
            Some(m[member_index(m, name)].1)
        } else {
            None
        },
        _ => None,
    }
}

/// The place of the first member called `name`.
pub fn find_member(members: &Vec<(String, Json)>, name: &str) -> (i: usize)
    ensures
        i == member_index(members_view(members@), name@),
        i <= members.len(),
{
    let ghost m = members_view(members@);
    let mut i: usize = 0;
    proof {
        assert(m.skip(0) =~= m);
    }
    while i < members.len()
        invariant
            i <= members.len(),
            m == members_view(members@),
            member_index(m, name@) == i + member_index(m.skip(i as int), name@),
        decreases members.len() - i,
    {
        proof {
            assert(m.skip(i as int).drop_first() =~= m.skip(i as int + 1));
            assert(m.skip(i as int)[0] == m[i as int]);
        }
        if same_text(members[i].0.as_str(), name) {
            return i;
        }
        i = i + 1;
    }
    i
}

/// The first member of `val` called `field_name`.
pub fn get_member<'a>(val: &'a Json, field_name: &str) -> (r: Option<&'a Json>)
    ensures
        match member(val@, field_name@) {
            Some(value) => r matches Some(found) && found@ == value,
            None => r is None,
        },
{
    match val {
        Json::Object(members) => {
            proof {
                lemma_view_of_object(*members);
            }
            let i = find_member(members, field_name);
            if i < members.len() {
                Some(&members[i].1)
            } else {
                None
            }
        },
        _ => None,
    }
}

/// The members of an object with `name` set to `value`: in place of the first member of that
/// name, at the end where there is none.
pub open spec fn with_member(
    m: Seq<(Seq<char>, JsonView)>,
    name: Seq<char>,
    value: JsonView,
) -> Seq<(Seq<char>, JsonView)> {
    if member_index(m, name) < m.len() {
        m.update(member_index(m, name), (name, value))
    } else {
        m.push((name, value))
    }
}

/// The place of a member lies within the members or just behind them, and holds the name.
pub proof fn lemma_member_index(m: Seq<(Seq<char>, JsonView)>, name: Seq<char>)
    ensures
        0 <= member_index(m, name) <= m.len(),
        member_index(m, name) < m.len() ==> m[member_index(m, name)].0 == name,
        forall|i: int| 0 <= i < member_index(m, name) ==> (#[trigger] m[i]).0 != name,
    decreases m.len(),
{
    if m.len() > 0 && m[0].0 != name {
        lemma_member_index(m.drop_first(), name);
        let rest = m.drop_first();
        assert forall|i: int| 0 <= i < member_index(m, name) implies (#[trigger] m[i]).0 != name by {
            if i > 0 {
                assert(rest[i - 1] == m[i]);
            }
        }
        if member_index(m, name) < m.len() {
            assert(rest[member_index(rest, name)] == m[member_index(m, name)]);
        }
    }
}

/// The first member of a name is found at the first place that holds the name.
pub proof fn lemma_member_index_is(m: Seq<(Seq<char>, JsonView)>, name: Seq<char>, at: int)
    requires
        0 <= at < m.len(),
        m[at].0 == name,
        forall|i: int| 0 <= i < at ==> (#[trigger] m[i]).0 != name,
    ensures
        member_index(m, name) == at,
    decreases m.len(),
{
    if at > 0 {
        let rest = m.drop_first();
        assert(m[0].0 != name);
        assert(rest[at - 1] == m[at]);
        assert forall|i: int| 0 <= i < at - 1 implies (#[trigger] rest[i]).0 != name by {
            assert(rest[i] == m[i + 1]);
        }
        lemma_member_index_is(rest, name, at - 1);
    }
}

/// A member that was set is the member that a lookup finds.
pub proof fn lemma_member_is_set(m: Seq<(Seq<char>, JsonView)>, name: Seq<char>, value: JsonView)
    ensures
        member(JsonView::Object(with_member(m, name, value)), name) == Some(value),
{
    lemma_member_index(m, name);
    let at = member_index(m, name);
    let set = with_member(m, name, value);
    assert(set[at] == (name, value));
    assert forall|i: int| 0 <= i < at implies (#[trigger] set[i]).0 != name by {
        assert(set[i] == m[i]);
    }
    lemma_member_index_is(set, name, at);
}

/// Sets the member `name` of an object to `value`.
pub fn set_member(members: &mut Vec<(String, Json)>, name: &str, value: Json)
    ensures
        members_view(final(members)@) == with_member(members_view(old(members)@), name@, value@),
{
    let ghost before = members_view(members@);
    let i = find_member(members, name);
    let entry = (name.to_owned(), value);
    if i < members.len() {
        members.set(i, entry);
    } else {
        members.push(entry);
    }
    proof {
        assert(members_view(members@) =~= with_member(before, name@, value@));
    }
}

impl Json {
    /// A second value that holds the same.
    pub fn duplicate(&self) -> (copy: Json)
        ensures
            copy@ == self@,
        decreases self,
    {
        match self {
            Json::Null => Json::Null,
            Json::Bool(b) => Json::Bool(*b),
            Json::Int(i) => Json::Int(*i),
            Json::UInt(u) => Json::UInt(*u),
            Json::Float(n) => Json::Float(n.clone()),
            Json::String(s) => Json::String(s.clone()),
            Json::Array(items) => {
                let mut copies: Vec<Json> = Vec::new();
                let mut i: usize = 0;
                while i < items.len()
                    invariant
                        i <= items.len(),
                        *self == Json::Array(*items),
                        json_views(copies@) == json_views(items@).take(i as int),
                    decreases items.len() - i,
                {
                    let ghost before = json_views(copies@);
                    proof {
                        assert(decreases_to!(*self => self->Array_0));
                        assert(self->Array_0 == *items);
                        assert(decreases_to!(*items => items@));
                        assert(decreases_to!(items@ => items@[i as int]));
                    }
                    let copy = items[i].duplicate();
                    copies.push(copy);
                    proof {
                        assert(json_views(copies@) =~= before.push(items@[i as int]@));
                        assert(json_views(copies@) =~= json_views(items@).take(i as int + 1));
                    }
                    i = i + 1;
                }
                proof {
                    assert(json_views(copies@) =~= json_views(items@));
                    lemma_view_of_array(copies);
                    lemma_view_of_array(*items);
                }
                Json::Array(copies)
            },
            Json::Object(members) => {
                let mut copies: Vec<(String, Json)> = Vec::new();
                let mut i: usize = 0;
                while i < members.len()
                    invariant
                        i <= members.len(),
                        *self == Json::Object(*members),
                        members_view(copies@) == members_view(members@).take(i as int),
                    decreases members.len() - i,
                {
                    let ghost before = members_view(copies@);
                    proof {
                        assert(decreases_to!(*self => self->Object_0));
                        assert(self->Object_0 == *members);
                        assert(decreases_to!(*members => members@));
                        assert(decreases_to!(members@ => members@[i as int]));
                        assert(decreases_to!(members@[i as int] => members@[i as int].1));
                    }
                    let copy = members[i].1.duplicate();
                    copies.push((members[i].0.clone(), copy));
                    proof {
                        assert(members_view(copies@) =~= before.push(
                            (members@[i as int].0@, members@[i as int].1@),
                        ));
                        assert(members_view(copies@) =~= members_view(members@).take(i as int + 1));
                    }
                    i = i + 1;
                }
                proof {
                    assert(members_view(copies@) =~= members_view(members@));
                    lemma_view_of_object(copies);
                    lemma_view_of_object(*members);
                }
                Json::Object(copies)
            },
        }
    }
}

/// The JSON text that serde_json writes for a value.
pub uninterp spec fn serde_text(v: serde_json::Value) -> Seq<char>;

/// `serde_json::to_string` of a `serde_json::Value`.
#[verifier::external_body]
fn value_text(v: &serde_json::Value) -> (s: String)
    ensures
        s@ == serde_text(*v),
{
    serde_json::to_string(v).unwrap_or_default()
}

/// The leaves of a value under the name `prefix`: a scalar is one leaf; null is none; an array
/// is one leaf, its JSON text; an object gives the leaves of its members, each under
/// `prefix.name`.
pub open spec fn flat_leaves(prefix: Seq<char>, v: JsonView) -> Seq<(Seq<char>, JsonView)>
    decreases v, 0nat,
{
    match v {
        JsonView::Null => Seq::empty(),
        JsonView::Array(_) => seq![(prefix, JsonView::Text(serde_text(serde_form(v))))],
        JsonView::Object(m) => member_leaves(prefix, m, m.len()),
        _ => seq![(prefix, v)],
    }
}

/// The leaves of the first `n` members of an object that stands under the name `prefix`.
pub open spec fn member_leaves(prefix: Seq<char>, m: Seq<(Seq<char>, JsonView)>, n: nat) -> Seq<
    (Seq<char>, JsonView),
>
    decreases m, n,
{
    if n == 0 || n > m.len() {
        Seq::empty()
    } else {
        member_leaves(prefix, m, (n - 1) as nat) + flat_leaves(
            prefix + seq!['.'] + m[n - 1].0,
            m[n - 1].1,
        )
    }
}

/// The leaves of the first `n` members of the object that is flattened: each under its own
/// name.
pub open spec fn top_leaves(m: Seq<(Seq<char>, JsonView)>, n: nat) -> Seq<(Seq<char>, JsonView)>
    decreases n,
{
    if n == 0 || n > m.len() {
        Seq::empty()
    } else {
        top_leaves(m, (n - 1) as nat) + flat_leaves(m[n - 1].0, m[n - 1].1)
    }
}

/// `acc` with every leaf set, one after the other.
pub open spec fn with_leaves(
    acc: Seq<(Seq<char>, JsonView)>,
    leaves: Seq<(Seq<char>, JsonView)>,
) -> Seq<(Seq<char>, JsonView)>
    decreases leaves.len(),
{
    if leaves.len() == 0 {
        acc
    } else {
        with_member(with_leaves(acc, leaves.drop_last()), leaves.last().0, leaves.last().1)
    }
}

proof fn lemma_with_leaves_of_concat(
    acc: Seq<(Seq<char>, JsonView)>,
    a: Seq<(Seq<char>, JsonView)>,
    b: Seq<(Seq<char>, JsonView)>,
)
    ensures
        with_leaves(acc, a + b) == with_leaves(with_leaves(acc, a), b),
    decreases b.len(),
{
    if b.len() == 0 {
        assert(a + b =~= a);
    } else {
        assert((a + b).drop_last() =~= a + b.drop_last());
        assert((a + b).last() == b.last());
        lemma_with_leaves_of_concat(acc, a, b.drop_last());
    }
}

/// Sets the leaves of `current` under the name `prefix` in `res`.
fn flatten_value(prefix: &str, current: &Json, res: &mut Vec<(String, Json)>)
    ensures
        members_view(final(res)@) == with_leaves(
            members_view(old(res)@),
            flat_leaves(prefix@, current@),
        ),
    decreases current,
{
    let ghost before = members_view(res@);
    match current {
        Json::Array(items) => {
            let text = value_text(&to_serde(current));
            set_member(res, prefix, Json::String(text));
            proof {
                let leaf = (prefix@, JsonView::Text(serde_text(serde_form(current@))));
                assert(seq![leaf].drop_last() =~= Seq::<(Seq<char>, JsonView)>::empty());
                assert(with_leaves(before, seq![leaf].drop_last()) == before);
            }
        },
        Json::Object(members) => {
            proof {
                lemma_view_of_object(*members);
            }
            let ghost m = members_view(members@);
            let mut i: usize = 0;
            while i < members.len()
                invariant
                    i <= members.len(),
                    *current == Json::Object(*members),
                    m == members_view(members@),
                    members_view(res@) == with_leaves(before, member_leaves(prefix@, m, i as nat)),
                decreases members.len() - i,
            {
                proof {
                    reveal_strlit(".");
                    assert("."@ =~= seq!['.']);
                    assert(decreases_to!(*current => current->Object_0));
                    assert(current->Object_0 == *members);
                    assert(decreases_to!(*members => members@));
                    assert(decreases_to!(members@ => members@[i as int]));
                    assert(decreases_to!(members@[i as int] => members@[i as int].1));
                    lemma_with_leaves_of_concat(
                        before,
                        member_leaves(prefix@, m, i as nat),
                        flat_leaves(prefix@ + seq!['.'] + m[i as int].0, m[i as int].1),
                    );
                }
                let name = crate::utils::text::join3(prefix, ".", members[i].0.as_str());
                flatten_value(name.as_str(), &members[i].1, res);
                i = i + 1;
            }
        },
        Json::Null => {},
        _ => {
            let copy = current.duplicate();
            set_member(res, prefix, copy);
            proof {
                let leaf = (prefix@, current@);
                assert(flat_leaves(prefix@, current@) == seq![leaf]);
                assert(seq![leaf].drop_last() =~= Seq::<(Seq<char>, JsonView)>::empty());
                assert(with_leaves(before, seq![leaf].drop_last()) == before);
            }
        },
    }
}

/// Flattens an object: the leaves of its members become the members of one flat object, a
/// nested member under the names on its path joined by dots. Where two leaves have one name,
/// the later takes the place of the earlier. Fails where the value is no object.
pub fn flatten_json(val: &Json) -> (r: Result<Json, MeltError>)
    ensures
        match val@ {
            JsonView::Object(m) => r matches Ok(flat) && flat@ == JsonView::Object(
                with_leaves(Seq::empty(), top_leaves(m, m.len())),
            ),
            _ => r matches Err(e) && e.kind == ErrorKind::BadInput,
        },
{
    match val {
        Json::Object(members) => {
            proof {
                lemma_view_of_object(*members);
            }
            let ghost m = members_view(members@);
            let mut res: Vec<(String, Json)> = Vec::new();
            let mut i: usize = 0;
            proof {
                assert(members_view(res@) =~= Seq::<(Seq<char>, JsonView)>::empty());
            }
            while i < members.len()
                invariant
                    i <= members.len(),
                    m == members_view(members@),
                    members_view(res@) == with_leaves(Seq::empty(), top_leaves(m, i as nat)),
                decreases members.len() - i,
            {
                proof {
                    lemma_with_leaves_of_concat(
                        Seq::empty(),
                        top_leaves(m, i as nat),
                        flat_leaves(m[i as int].0, m[i as int].1),
                    );
                }
                flatten_value(members[i].0.as_str(), &members[i].1, &mut res);
                i = i + 1;
            }
            proof {
                lemma_view_of_object(res);
            }
            Ok(Json::Object(res))
        },
        _ => Err(MeltError::bad_input("json value should be map")),
    }
}

} // verus!
