//! JSON documents as script tables.
//!
//! A document fetched by a script is parsed by the `json` crate, copied into
//! a [`JsonNode`] and mapped, kind by kind, to the [`ScriptValue`] that the
//! script receives: null to nil, a string to a string, a number to the
//! number nearest to its whole part, a boolean to a boolean, an object to a
//! table keyed by its member names and an array to a table keyed by 1, 2, 3
//! and so on. The document itself must be an object or an array.
//!
//! A text with a run of more than 32767 digits is not handed to the parser,
//! which counts the digits of a number in sixteen bits; it is refused.

use crate::number::{nearest_bits, Double};
use crate::script::{
    script_entries_view, sendable, ScriptKey, ScriptKeyView, ScriptValue, ScriptValueView,
};
use vstd::prelude::*;
use vstd::string::{StringExecFns, StringSliceAdditionalSpecFns};
use vstd::utf8::encode_utf8;

verus! {

/// A JSON number as the parser holds it: a sign, a decimal mantissa and a
/// decimal exponent. Its value is `mantissa` times ten to the power
/// `exponent`, negated where `positive` is false.
#[derive(Clone, Copy, Debug, PartialEq, Eq, Structural)]
pub struct JsonNumber {
    pub positive: bool,
    pub mantissa: u64,
    pub exponent: i16,
}

/// A parsed JSON value.
#[derive(Debug, PartialEq)]
pub enum JsonNode {
    Null,
    String(String),
    Number(JsonNumber),
    Boolean(bool),
    /// The members of an object, in the order of the document.
    Object(Vec<(String, JsonNode)>),
    Array(Vec<JsonNode>),
}

/// The mathematical value of a [`JsonNode`].
pub enum JsonNodeView {
    Null,
    String(Seq<char>),
    Number(JsonNumber),
    Boolean(bool),
    Object(Seq<(Seq<char>, JsonNodeView)>),
    Array(Seq<JsonNodeView>),
}

/// Why a document gave no table.
#[derive(Clone, Copy, Debug, PartialEq, Eq, Structural)]
pub enum JsonFailure {
    /// The text is not a JSON document.
    Malformed,
    /// The document is a single string, number, boolean or null.
    RootNotTable,
    /// The text holds more than 32767 digits in a row.
    TooManyDigits,
}

/// The members of an object, each name by its text and each value by its view.
pub open spec fn members_view(members: Seq<(String, JsonNode)>) -> Seq<(Seq<char>, JsonNodeView)>
    decreases members,
{
    Seq::new(
        members.len(),
        |i: int|
            if 0 <= i < members.len() {
                (members[i].0@, members[i].1.view())
            } else {
                (Seq::empty(), JsonNodeView::Null)
            },
    )
}

/// The items of an array, each by its view.
pub open spec fn items_view(items: Seq<JsonNode>) -> Seq<JsonNodeView>
    decreases items,
{
    Seq::new(
        items.len(),
        |i: int|
            if 0 <= i < items.len() {
                items[i].view()
            } else {
                JsonNodeView::Null
            },
    )
}

impl View for JsonNode {
    type V = JsonNodeView;

    open spec fn view(&self) -> JsonNodeView
        decreases self,
    {
        match self {
            JsonNode::Null => JsonNodeView::Null,
            JsonNode::String(s) => JsonNodeView::String(s@),
            JsonNode::Number(n) => JsonNodeView::Number(*n),
            JsonNode::Boolean(b) => JsonNodeView::Boolean(*b),
            JsonNode::Object(members) => JsonNodeView::Object(members_view(members@)),
            JsonNode::Array(items) => JsonNodeView::Array(items_view(items@)),
        }
    }
}

#[verifier::external_type_specification]
#[verifier::external_body]
pub struct ExJsonError(json::Error);

#[verifier::external_type_specification]
#[verifier::external_body]
pub struct ExJsonValue(json::JsonValue);

/// What the `json` crate's parser makes of a text: the document, or `None`
/// where the text is not one.
pub uninterp spec fn json_document(text: Seq<char>) -> Option<JsonNodeView>;

/// What the `json` crate gives as the whole part of a number: the value of
/// `as_fixed_point_i64(0)` for the number with these parts.
pub uninterp spec fn fixed_point_value(positive: bool, mantissa: u64, exponent: i16) -> Option<
    i64,
>;

/// Copies a value of the `json` crate into a [`JsonNode`].
///
/// Trusted: tells the variants of `json::JsonValue` apart and moves their
/// contents over. A short string and a long one both become `String`; a
/// number is taken apart by `Number::as_parts`; the members of an object
/// come in the order of `Object::iter`, which is the order of the document.
/// Nothing is claimed of the result here; see `parse_json`.
#[verifier::external_body]
fn node_of(value: &json::JsonValue) -> JsonNode {
    match value {
        json::JsonValue::Null => JsonNode::Null,
        json::JsonValue::Short(s) => JsonNode::String(s.as_str().to_string()),
        json::JsonValue::String(s) => JsonNode::String(s.clone()),
        json::JsonValue::Number(n) => {
            let (positive, mantissa, exponent) = n.as_parts();
            JsonNode::Number(JsonNumber { positive, mantissa, exponent })
        },
        json::JsonValue::Boolean(b) => JsonNode::Boolean(*b),
        json::JsonValue::Object(o) => JsonNode::Object(
            o.iter().map(|(k, v)| (k.to_string(), node_of(v))).collect(),
        ),
        json::JsonValue::Array(a) => JsonNode::Array(a.iter().map(node_of).collect()),
    }
}

/// Parses a JSON text.
///
/// Trusted: calls `json::parse` and copies what it returns. The contract
/// only gives the outcome its name, `json_document`: the parser is a
/// function of the text alone. The parser counts the digits after a decimal
/// point in a 16-bit exponent without a guard, so a text with more than
/// 32767 digits in a row is left out.
#[verifier::external_body]
fn parse_json(text: &str) -> (result: Result<JsonNode, json::Error>)
    requires
        !has_long_digit_run(text.spec_bytes()),
    ensures
        match result {
            Ok(node) => json_document(text@) == Some(node@),
            Err(_) => json_document(text@) is None,
        },
{
    json::parse(text).map(|value| node_of(&value))
}

/// The whole part of a JSON number, as the `json` crate computes it.
///
/// Trusted: rebuilds the number with `Number::from_parts` and calls
/// `as_fixed_point_i64(0)` on it. The result is a function of the parts and
/// gets the name `fixed_point_value`. The one fact stated of it is read off
/// the source: where the exponent is between -18 and 0 and the mantissa
/// fits, the result is the mantissa divided by that power of ten, the
/// remainder dropped, with the sign of the number. The two inputs on which
/// the source negates or casts out of range are excluded.
#[verifier::external_body]
fn fixed_point(number: &JsonNumber) -> (value: Option<i64>)
    requires
        number.positive || number.mantissa < 0x8000_0000_0000_0000,
        number.exponent > -0x8000,
    ensures
        value == fixed_point_value(number.positive, number.mantissa, number.exponent),
        -18 <= number.exponent <= 0 && number.mantissa <= 0x7fff_ffff_ffff_ffff ==> value
            == Some(cut(*number) as i64),
{
    json::number::Number::from_parts(
        number.positive,
        number.mantissa,
        number.exponent,
    ).as_fixed_point_i64(0)
}

/// Ten to the power `k`.
pub open spec fn power_of_ten(k: nat) -> nat
    decreases k,
{
    if k == 0 {
        1
    } else {
        10 * power_of_ten((k - 1) as nat)
    }
}

/// The value of a number whose exponent is not positive, with the
/// fractional part discarded: the mantissa divided by the power of ten, the
/// remainder dropped, with the sign of the number.
pub open spec fn cut(number: JsonNumber) -> int {
    let magnitude = number.mantissa as int / power_of_ten((-number.exponent) as nat) as int;
    if number.positive {
        magnitude
    } else {
        -magnitude
    }
}

/// The 64-bit whole part of a JSON number, with its fractional part
/// discarded.
///
/// For a negative number whose mantissa is two to the power 63 or more, of
/// which the `json` crate gives no value, it is `cut` where the exponent is
/// between -18 and 0 and the result fits, and 0 otherwise. For every other
/// number it is what the `json` crate gives, and 0 where it gives nothing;
/// see `fixed_point` for what that is.
pub open spec fn whole_part(number: JsonNumber) -> i64 {
    if number.exponent <= -0x8000 {
        0
    } else if !number.positive && number.mantissa >= 0x8000_0000_0000_0000 {
        if -18 <= number.exponent <= 0 && -cut(number) <= 0x8000_0000_0000_0000 {
            cut(number) as i64
        } else {
            0
        }
    } else {
        match fixed_point_value(number.positive, number.mantissa, number.exponent) {
            Some(value) => value,
            None => 0,
        }
    }
}

/// The first powers of ten.
pub proof fn lemma_powers_of_ten()
    ensures
        power_of_ten(0) == 1,
        power_of_ten(1) == 10,
        power_of_ten(2) == 100,
        power_of_ten(3) == 1000,
        power_of_ten(4) == 10000,
        power_of_ten(5) == 100000,
        power_of_ten(6) == 1000000,
        power_of_ten(7) == 10000000,
        power_of_ten(8) == 100000000,
        power_of_ten(9) == 1000000000,
        power_of_ten(10) == 10000000000,
        power_of_ten(11) == 100000000000,
        power_of_ten(12) == 1000000000000,
        power_of_ten(13) == 10000000000000,
        power_of_ten(14) == 100000000000000,
        power_of_ten(15) == 1000000000000000,
        power_of_ten(16) == 10000000000000000,
        power_of_ten(17) == 100000000000000000,
        power_of_ten(18) == 1000000000000000000,
{
    reveal_with_fuel(power_of_ten, 20);
}

fn ten_to_the(k: u64) -> (p: u64)
    requires
        k <= 18,
    ensures
        p == power_of_ten(k as nat),
        1 <= p <= 1000000000000000000,
{
    let mut p: u64 = 1;
    let mut i: u64 = 0;
    proof {
        lemma_powers_of_ten();
    }
    while i < k
        invariant
            i <= k <= 18,
            p == power_of_ten(i as nat),
        decreases k - i,
    {
        proof {
            lemma_powers_of_ten();
        }
        p = p * 10;
        i += 1;
    }
    p
}

/// A byte is a decimal digit.
pub open spec fn is_digit(byte: u8) -> bool {
    0x30 <= byte <= 0x39
}

/// How many digits stand in a row just before position `end`.
pub open spec fn digits_before(bytes: Seq<u8>, end: int) -> nat
    decreases end,
{
    if 0 < end <= bytes.len() && is_digit(bytes[end - 1]) {
        1 + digits_before(bytes, end - 1)
    } else {
        0
    }
}

/// Somewhere more than 32767 digits stand in a row.
pub open spec fn has_long_digit_run(bytes: Seq<u8>) -> bool {
    exists|end: int| 0 <= end <= bytes.len() && #[trigger] digits_before(bytes, end) > 32767
}

/// The table that a text gives, or why it gives none: `TooManyDigits` where
/// it holds more than 32767 digits in a row, and otherwise what the document
/// gives that the parser makes of it.
pub open spec fn table_for(text: Seq<char>) -> Result<ScriptValueView, JsonFailure> {
    if has_long_digit_run(encode_utf8(text)) {
        Err(JsonFailure::TooManyDigits)
    } else {
        table_of(json_document(text))
    }
}

/// What a script is told where a text gives no table.
pub open spec fn failure_text(failure: JsonFailure) -> Seq<char> {
    match failure {
        JsonFailure::Malformed => "Failed to convert JSON to Lua table"@,
        JsonFailure::RootNotTable => "Root element is not a table"@,
        JsonFailure::TooManyDigits => "A number has too many digits"@,
    }
}

/// The key of the item at position `i` of an array: `i + 1`.
pub open spec fn item_key(i: int) -> i64 {
    if i < 0x7fff_ffff_ffff_ffff {
        (i + 1) as i64
    } else {
        0x7fff_ffff_ffff_ffff
    }
}

/// The script value that a JSON value becomes.
pub open spec fn script_value(node: JsonNodeView) -> ScriptValueView
    decreases node,
{
    match node {
        JsonNodeView::Null => ScriptValueView::Nil,
        JsonNodeView::String(s) => ScriptValueView::String(s),
        JsonNodeView::Number(n) => ScriptValueView::Number(
            Double { bits: nearest_bits(whole_part(n) as int) as u64 },
        ),
        JsonNodeView::Boolean(b) => ScriptValueView::Boolean(b),
        JsonNodeView::Object(members) => ScriptValueView::Table(
            Seq::new(
                members.len(),
                |i: int|
                    if 0 <= i < members.len() {
                        (ScriptKeyView::Text(members[i].0), script_value(members[i].1))
                    } else {
                        (ScriptKeyView::Other, ScriptValueView::Nil)
                    },
            ),
        ),
        JsonNodeView::Array(items) => ScriptValueView::Table(
            Seq::new(
                items.len(),
                |i: int|
                    if 0 <= i < items.len() {
                        (ScriptKeyView::Index(item_key(i)), script_value(items[i]))
                    } else {
                        (ScriptKeyView::Other, ScriptValueView::Nil)
                    },
            ),
        ),
    }
}

/// The table that a document becomes, or why it becomes none.
pub open spec fn table_of(document: Option<JsonNodeView>) -> Result<ScriptValueView, JsonFailure> {
    match document {
        None => Err(JsonFailure::Malformed),
        Some(node) => if node is Object || node is Array {
            Ok(script_value(node))
        } else {
            Err(JsonFailure::RootNotTable)
        },
    }
}

/// The whole part of a JSON number.
///
/// Where the exponent is between -18 and 0 and the result fits in 64 bits,
/// it is the value of the number with the fractional part discarded.
pub fn whole_part_of(number: &JsonNumber) -> (value: i64)
    ensures
        value == whole_part(*number),
        -18 <= number.exponent <= 0 && (if number.positive {
            number.mantissa <= 0x7fff_ffff_ffff_ffff
        } else {
            -cut(*number) <= 0x8000_0000_0000_0000
        }) ==> value == cut(*number),
{
    if number.exponent <= -0x8000 {
        0
    } else if !number.positive && number.mantissa >= 0x8000_0000_0000_0000 {
        if number.exponent >= -18 && number.exponent <= 0 {
            let magnitude = number.mantissa / ten_to_the((-number.exponent) as u64);
            if magnitude < 0x8000_0000_0000_0000 {
                -(magnitude as i64)
            } else if magnitude == 0x8000_0000_0000_0000 {
                -0x8000_0000_0000_0000
            } else {
                0
            }
        } else {
            0
        }
    } else {
        proof {
            if -18 <= number.exponent <= 0 {
                lemma_powers_of_ten();
                let p = power_of_ten((-number.exponent) as nat) as int;
                assert(0 <= number.mantissa as int / p <= number.mantissa as int)
                    by (nonlinear_arith)
                    requires
                        p >= 1,
                        number.mantissa >= 0,
                ;
            }
        }
        match fixed_point(number) {
            Some(value) => value,
            None => 0,
        }
    }
}

/// Whether the text holds more than 32767 digits in a row.
pub fn long_digit_run(text: &str) -> (long: bool)
    ensures
        long == has_long_digit_run(text.spec_bytes()),
{
    let bytes = text.as_bytes();
    let mut run: usize = 0;
    let mut i: usize = 0;
    while i < bytes.len()
        invariant
            i <= bytes.len(),
            bytes@ == text.spec_bytes(),
            run <= 32767,
            run == digits_before(bytes@, i as int),
            forall|end: int| 0 <= end <= i ==> #[trigger] digits_before(bytes@, end) <= 32767,
        decreases bytes.len() - i,
    {
        if bytes[i] >= 0x30 && bytes[i] <= 0x39 {
            run += 1;
            assert(run == digits_before(bytes@, i + 1));
            if run > 32767 {
                assert(digits_before(bytes@, i + 1) > 32767);
                return true;
            }
        } else {
            run = 0;
            assert(digits_before(bytes@, i + 1) == 0);
        }
        i += 1;
    }
    false
}

/// Maps a JSON value to the script value that stands for it.
pub fn script_from_json(node: &JsonNode) -> (value: ScriptValue)
    ensures
        value@ == script_value(node@),
    decreases node,
{
    match node {
        JsonNode::Null => ScriptValue::Nil,
        JsonNode::String(s) => ScriptValue::String(s.clone()),
        JsonNode::Number(n) => ScriptValue::Number(Double::from_i64(whole_part_of(n))),
        JsonNode::Boolean(b) => ScriptValue::Boolean(*b),
        JsonNode::Object(members) => {
            let mut entries: Vec<(ScriptKey, ScriptValue)> = Vec::new();
            let mut i: usize = 0;
            while i < members.len()
                invariant
                    i <= members.len(),
                    *node == JsonNode::Object(*members),
                    entries@.len() == i,
                    forall|j: int|
                        0 <= j < i ==> (#[trigger] entries@[j]).0@ == ScriptKeyView::Text(
                            members@[j].0@,
                        ) && entries@[j].1@ == script_value(members@[j].1@),
                decreases members.len() - i,
            {
                proof {
                    broadcast use vstd::std_specs::vec::axiom_vec_index_decreases;

                    assert(decreases_to!(*node => node->Object_0));
                    assert(decreases_to!(node->Object_0 => (node->Object_0)[i as int]));
                    assert(decreases_to!((node->Object_0)[i as int] => (node->Object_0)[i as int].1));
                }
                let value = script_from_json(&members[i].1);
                entries.push((ScriptKey::Text(members[i].0.clone()), value));
                i += 1;
            }
            proof {
                let made = script_entries_view(entries@);
                let given = members_view(members@);
                let wanted = script_value(JsonNodeView::Object(given))->Table_0;
                assert forall|j: int| 0 <= j < made.len() implies made[j] == wanted[j] by {
                    assert(given[j] == (members@[j].0@, members@[j].1@));
                    assert(made[j] == (entries@[j].0@, entries@[j].1@));
                }
                assert(made =~= wanted);
            }
            ScriptValue::Table(entries)
        },
        JsonNode::Array(items) => {
            let mut entries: Vec<(ScriptKey, ScriptValue)> = Vec::new();
            let mut i: usize = 0;
            while i < items.len()
                invariant
                    i <= items.len(),
                    *node == JsonNode::Array(*items),
                    entries@.len() == i,
                    forall|j: int|
                        0 <= j < i ==> (#[trigger] entries@[j]).0@ == ScriptKeyView::Index(
                            item_key(j),
                        ) && entries@[j].1@ == script_value(items@[j]@),
                decreases items.len() - i,
            {
                proof {
                    broadcast use vstd::std_specs::vec::axiom_vec_index_decreases;

                    assert(decreases_to!(*node => node->Array_0));
                    assert(decreases_to!(node->Array_0 => (node->Array_0)[i as int]));
                }
                let value = script_from_json(&items[i]);
                let position = i as u64;
                let key: i64 = if position < 0x7fff_ffff_ffff_ffff {
                    (position + 1) as i64
                } else {
                    0x7fff_ffff_ffff_ffff
                };
                entries.push((ScriptKey::Index(key), value));
                i += 1;
            }
            proof {
                let made = script_entries_view(entries@);
                let given = items_view(items@);
                let wanted = script_value(JsonNodeView::Array(given))->Table_0;
                assert forall|j: int| 0 <= j < made.len() implies made[j] == wanted[j] by {
                    assert(given[j] == items@[j]@);
                    assert(made[j] == (entries@[j].0@, entries@[j].1@));
                }
                assert(made =~= wanted);
            }
            ScriptValue::Table(entries)
        },
    }
}

/// Turns the text of a JSON document into the table a script receives.
///
/// Fails with `TooManyDigits` where the text holds more than 32767 digits in
/// a row, with `Malformed` where it is no JSON document and with
/// `RootNotTable` where the document is neither an object nor an array. A
/// table that is made is one the interpreter can be given.
pub fn table_from_json(text: &str) -> (result: Result<ScriptValue, JsonFailure>)
    ensures
        match result {
            Ok(table) => table_for(text@) == Ok::<ScriptValueView, JsonFailure>(table@)
                && sendable(table@),
            Err(failure) => table_for(text@) == Err::<ScriptValueView, JsonFailure>(failure),
        },
{
    if long_digit_run(text) {
        return Err(JsonFailure::TooManyDigits);
    }
    match parse_json(text) {
        Ok(node) => table_from_document(&node),
        Err(_) => Err(JsonFailure::Malformed),
    }
}

/// What a script that asked for a document is answered with, given what was
/// fetched: the table that the fetched text gives, or the message of the
/// error that is raised in the script.
pub fn fetched_table(fetched: Result<String, String>) -> (result: Result<ScriptValue, String>)
    ensures
        match fetched {
            Err(reason) => result matches Err(message) && message@ == "Failed to fetch data: "@
                + reason@,
            Ok(text) => match table_for(text@) {
                Ok(table) => result matches Ok(made) && made@ == table && sendable(made@),
                Err(failure) => result matches Err(message) && message@ == failure_text(
                    failure,
                ),
            },
        },
{
    match fetched {
        Ok(text) => match table_from_json(text.as_str()) {
            Ok(table) => Ok(table),
            Err(JsonFailure::Malformed) => Err("Failed to convert JSON to Lua table".to_owned()),
            Err(JsonFailure::RootNotTable) => Err("Root element is not a table".to_owned()),
            Err(JsonFailure::TooManyDigits) => Err("A number has too many digits".to_owned()),
        },
        Err(reason) => {
            let mut message = "Failed to fetch data: ".to_owned();
            message.append(reason.as_str());
            Err(message)
        },
    }
}

/// The script value of a JSON value is one the interpreter can be given.
pub proof fn lemma_script_value_sendable(node: JsonNodeView)
    ensures
        sendable(script_value(node)),
    decreases node,
{
    match node {
        JsonNodeView::Object(members) => {
            let entries = script_value(node)->Table_0;
            assert forall|i: int| 0 <= i < entries.len() implies !((
            #[trigger] entries[i]).0 is Other) && sendable(entries[i].1) by {
                lemma_script_value_sendable(members[i].1);
            }
        },
        JsonNodeView::Array(items) => {
            let entries = script_value(node)->Table_0;
            assert forall|i: int| 0 <= i < entries.len() implies !((
            #[trigger] entries[i]).0 is Other) && sendable(entries[i].1) by {
                lemma_script_value_sendable(items[i]);
            }
        },
        _ => {},
    }
}

/// The table that a parsed document becomes: its script value where it is an
/// object or an array, `RootNotTable` otherwise.
pub fn table_from_document(node: &JsonNode) -> (result: Result<ScriptValue, JsonFailure>)
    ensures
        match result {
            Ok(table) => table_of(Some(node@)) == Ok::<ScriptValueView, JsonFailure>(table@)
                && sendable(table@),
            Err(failure) => table_of(Some(node@)) == Err::<ScriptValueView, JsonFailure>(failure),
        },
{
    proof {
        lemma_script_value_sendable(node@);
    }
    match node {
        JsonNode::Object(_) => Ok(script_from_json(node)),
        JsonNode::Array(_) => Ok(script_from_json(node)),
        _ => Err(JsonFailure::RootNotTable),
    }
}

} // verus!
