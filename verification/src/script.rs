//! Plain copies of interpreter values, and their lowering to configuration
//! values.
//!
//! A [`ScriptValue`] holds what a value of the interpreter holds, copied out
//! of the interpreter's state: it can be built, compared and inspected
//! without an interpreter. Values travel in both directions in this form.
//! What comes out of the interpreter can hold kinds that have no place in a
//! configuration; [`lower`] maps the others to [`LuaType`] and rejects those.

use crate::error::ConfigError;
use crate::number::Double;
use crate::table::{
    by_text, distinct_keys, first_index, has_key, is_first, lemma_first_index,
    lemma_first_unique, lemma_with_entry, put, with_entry,
};
use crate::text::{decimal, decimal_text};
use crate::value::{entries_view, well_formed, LuaType, LuaTypeView};
use vstd::prelude::*;

verus! {

/// The key of a table entry.
#[derive(Debug, PartialEq)]
pub enum ScriptKey {
    /// A string key, or one that the interpreter turned into a string.
    Text(String),
    /// An integer key, as the items of a list have them, counted from 1.
    Index(i64),
    /// A key that has no text: a boolean, a table, a string that is not
    /// valid UTF-8.
    Other,
}

/// A copy of an interpreter value.
#[derive(Debug, PartialEq)]
pub enum ScriptValue {
    Nil,
    Boolean(bool),
    Integer(i64),
    Number(Double),
    String(String),
    /// A string whose bytes are not valid UTF-8.
    Binary,
    /// The entries of a table, in the order in which the interpreter walks
    /// them.
    Table(Vec<(ScriptKey, ScriptValue)>),
    /// A table met again inside itself.
    Cycle,
    /// A function, a coroutine, userdata or an error object.
    Other,
}

/// A value that is plain data: it holds no string and no table, and is what
/// it is outside an interpreter as inside one.
#[derive(Clone, Copy, Debug, PartialEq)]
pub enum Plain {
    Nil,
    Boolean(bool),
    Integer(i64),
    Number(Double),
}

/// The mathematical value of a [`ScriptKey`].
pub enum ScriptKeyView {
    Text(Seq<char>),
    Index(i64),
    Other,
}

/// The mathematical value of a [`ScriptValue`].
pub enum ScriptValueView {
    Nil,
    Boolean(bool),
    Integer(i64),
    Number(Double),
    String(Seq<char>),
    Binary,
    Table(Seq<(ScriptKeyView, ScriptValueView)>),
    Cycle,
    Other,
}

impl View for ScriptKey {
    type V = ScriptKeyView;

    open spec fn view(&self) -> ScriptKeyView {
        match self {
            ScriptKey::Text(s) => ScriptKeyView::Text(s@),
            ScriptKey::Index(i) => ScriptKeyView::Index(*i),
            ScriptKey::Other => ScriptKeyView::Other,
        }
    }
}

/// The entries of a script table, each key and value by its view.
pub open spec fn script_entries_view(entries: Seq<(ScriptKey, ScriptValue)>) -> Seq<
    (ScriptKeyView, ScriptValueView),
>
    decreases entries,
{
    Seq::new(
        entries.len(),
        |i: int|
            if 0 <= i < entries.len() {
                (entries[i].0@, entries[i].1.view())
            } else {
                (ScriptKeyView::Other, ScriptValueView::Nil)
            },
    )
}

impl View for ScriptValue {
    type V = ScriptValueView;

    open spec fn view(&self) -> ScriptValueView
        decreases self,
    {
        match self {
            ScriptValue::Nil => ScriptValueView::Nil,
            ScriptValue::Boolean(b) => ScriptValueView::Boolean(*b),
            ScriptValue::Integer(i) => ScriptValueView::Integer(*i),
            ScriptValue::Number(n) => ScriptValueView::Number(*n),
            ScriptValue::String(s) => ScriptValueView::String(s@),
            ScriptValue::Binary => ScriptValueView::Binary,
            ScriptValue::Table(entries) => ScriptValueView::Table(script_entries_view(entries@)),
            ScriptValue::Cycle => ScriptValueView::Cycle,
            ScriptValue::Other => ScriptValueView::Other,
        }
    }
}

/// The value is one that the interpreter can be given: nil, a boolean, an
/// integer, a number, a string, or a table whose keys are texts and integers
/// and whose values are of these kinds in turn.
pub open spec fn sendable(value: ScriptValueView) -> bool
    decreases value,
{
    match value {
        ScriptValueView::Nil => true,
        ScriptValueView::Boolean(_) => true,
        ScriptValueView::Integer(_) => true,
        ScriptValueView::Number(_) => true,
        ScriptValueView::String(_) => true,
        ScriptValueView::Table(entries) => forall|i: int|
            0 <= i < entries.len() ==> !((#[trigger] entries[i]).0 is Other) && sendable(
                entries[i].1,
            ),
        _ => false,
    }
}

/// No table anywhere in the value has an integer key. The copy of a value of
/// the interpreter is of this form: the keys of its tables are the texts
/// that the interpreter gives for them.
pub open spec fn keyed_by_text(value: ScriptValueView) -> bool
    decreases value,
{
    match value {
        ScriptValueView::Table(entries) => forall|i: int|
            0 <= i < entries.len() ==> !((#[trigger] entries[i]).0 is Index) && keyed_by_text(
                entries[i].1,
            ),
        _ => true,
    }
}

/// The copy of a plain value of the interpreter: the value of the same kind
/// with the same content.
pub fn plain_copy(plain: Plain) -> (copy: ScriptValue)
    ensures
        copy == match plain {
            Plain::Nil => ScriptValue::Nil,
            Plain::Boolean(b) => ScriptValue::Boolean(b),
            Plain::Integer(i) => ScriptValue::Integer(i),
            Plain::Number(n) => ScriptValue::Number(n),
        },
{
    match plain {
        Plain::Nil => ScriptValue::Nil,
        Plain::Boolean(b) => ScriptValue::Boolean(b),
        Plain::Integer(i) => ScriptValue::Integer(i),
        Plain::Number(n) => ScriptValue::Number(n),
    }
}

/// The plain value that a script value is: nil, a boolean, an integer or a
/// number as it is, and `None` for a value of any other kind.
pub fn plain_of(value: &ScriptValue) -> (plain: Option<Plain>)
    ensures
        plain == match *value {
            ScriptValue::Nil => Some(Plain::Nil),
            ScriptValue::Boolean(b) => Some(Plain::Boolean(b)),
            ScriptValue::Integer(i) => Some(Plain::Integer(i)),
            ScriptValue::Number(n) => Some(Plain::Number(n)),
            _ => None,
        },
{
    match value {
        ScriptValue::Nil => Some(Plain::Nil),
        ScriptValue::Boolean(b) => Some(Plain::Boolean(*b)),
        ScriptValue::Integer(i) => Some(Plain::Integer(*i)),
        ScriptValue::Number(n) => Some(Plain::Number(*n)),
        _ => None,
    }
}

/// The copy of a string of the interpreter, given its text: the string
/// where it has one, `Binary` where its bytes are not valid UTF-8.
pub fn string_copy(text: Option<String>) -> (copy: ScriptValue)
    ensures
        copy == match text {
            Some(t) => ScriptValue::String(t),
            None => ScriptValue::Binary,
        },
{
    match text {
        Some(t) => ScriptValue::String(t),
        None => ScriptValue::Binary,
    }
}

/// The copy of a key of the interpreter, given the text that the
/// interpreter has for it: `Text` where it has one, `Other` where it has
/// none.
pub fn key_copy(text: Option<String>) -> (key: ScriptKey)
    ensures
        key == match text {
            Some(t) => ScriptKey::Text(t),
            None => ScriptKey::Other,
        },
{
    match text {
        Some(t) => ScriptKey::Text(t),
        None => ScriptKey::Other,
    }
}

/// The text under which an entry with this key is stored in a configuration
/// table: a text key as it is, an integer key in decimal, any other none.
pub open spec fn key_text(key: ScriptKeyView) -> Option<Seq<char>> {
    match key {
        ScriptKeyView::Text(s) => Some(s),
        ScriptKeyView::Index(i) => Some(decimal(i as int)),
        ScriptKeyView::Other => None,
    }
}

/// The configuration value that a script value lowers to, or `None` for a
/// value that has none: a function, a coroutine, userdata, a table that
/// contains itself, or a table that holds one of these under a key with text.
///
/// Each kind maps to the kind of the same name. A string that is not valid
/// UTF-8 gives the empty string.
pub open spec fn lowered(value: ScriptValueView) -> Option<LuaTypeView>
    decreases value, 0nat,
{
    match value {
        ScriptValueView::Nil => Some(LuaTypeView::Nil),
        ScriptValueView::Boolean(b) => Some(LuaTypeView::Boolean(b)),
        ScriptValueView::Integer(i) => Some(LuaTypeView::Integer(i)),
        ScriptValueView::Number(n) => Some(LuaTypeView::Number(n)),
        ScriptValueView::String(s) => Some(LuaTypeView::String(s)),
        ScriptValueView::Binary => Some(LuaTypeView::String(Seq::empty())),
        ScriptValueView::Table(entries) => match lowered_prefix(entries, entries.len()) {
            Some(table) => Some(LuaTypeView::Table(table)),
            None => None,
        },
        ScriptValueView::Cycle => None,
        ScriptValueView::Other => None,
    }
}

/// The table that the first `n` entries lower to. The entries are stored one
/// after the other under the text of their keys, so of two entries that come
/// to the same text the later one gives the value; an entry whose key has no
/// text is left out, whatever its value is.
pub open spec fn lowered_prefix(entries: Seq<(ScriptKeyView, ScriptValueView)>, n: nat) -> Option<
    Seq<(Seq<char>, LuaTypeView)>,
>
    decreases entries, n,
{
    if n == 0 || n > entries.len() {
        Some(Seq::empty())
    } else {
        match lowered_prefix(entries, (n - 1) as nat) {
            None => None,
            Some(table) => match key_text(entries[n - 1].0) {
                None => Some(table),
                Some(key) => match lowered(entries[n - 1].1) {
                    None => None,
                    Some(value) => Some(with_entry(table, key, value)),
                },
            },
        }
    }
}

/// Storing an entry changes the view of a table as it changes the table.
pub proof fn lemma_view_with_entry(
    before: Seq<(String, LuaType)>,
    after: Seq<(String, LuaType)>,
    key: Seq<char>,
    value: LuaType,
)
    requires
        by_text(after) == with_entry(by_text(before), key, value),
    ensures
        entries_view(after) == with_entry(entries_view(before), key, value@),
{
    let b = by_text(before);
    let v = entries_view(before);
    assert forall|i: int| 0 <= i < b.len() implies (#[trigger] b[i]).0 == v[i].0 by {}
    assert forall|i: int| 0 <= i < v.len() implies (#[trigger] v[i]).0 == b[i].0 by {}
    if has_key(b, key) {
        let i = choose|i: int| 0 <= i < b.len() && (#[trigger] b[i]).0 == key;
        assert(v[i].0 == key);
        lemma_first_index(b, key);
        lemma_first_index(v, key);
        let f = first_index(b, key);
        assert(is_first(v, key, f)) by {
            assert(v[f].0 == b[f].0);
            assert forall|j: int| 0 <= j < f implies (#[trigger] v[j]).0 != key by {
                assert(b[j].0 != key);
            }
        }
        lemma_first_unique(v, key, f, first_index(v, key));
        assert(by_text(after).len() == before.len());
        assert forall|j: int| 0 <= j < after.len() implies #[trigger] entries_view(after)[j]
            == with_entry(v, key, value@)[j] by {
            assert(by_text(after)[j] == b.update(f, (key, value))[j]);
        }
        assert(entries_view(after) =~= with_entry(v, key, value@));
    } else {
        if has_key(v, key) {
            let i = choose|i: int| 0 <= i < v.len() && (#[trigger] v[i]).0 == key;
            assert(b[i].0 == key);
        }
        assert(by_text(after).len() == before.len() + 1);
        assert forall|j: int| 0 <= j < after.len() implies #[trigger] entries_view(after)[j]
            == with_entry(v, key, value@)[j] by {
            assert(by_text(after)[j] == b.push((key, value))[j]);
        }
        assert(entries_view(after) =~= with_entry(v, key, value@));
    }
}

/// Lowers a script value to a configuration value.
///
/// Fails with `UnsupportedValue` exactly where the value has no
/// configuration value; see [`lowered`].
pub fn lower(value: &ScriptValue) -> (result: Result<LuaType, ConfigError>)
    ensures
        match result {
            Ok(lua_type) => lowered(value@) == Some(lua_type@),
            Err(error) => lowered(value@) is None && error == ConfigError::UnsupportedValue,
        },
    decreases value,
{
    match value {
        ScriptValue::Nil => Ok(LuaType::Nil),
        ScriptValue::Boolean(b) => Ok(LuaType::Boolean(*b)),
        ScriptValue::Integer(i) => Ok(LuaType::Integer(*i)),
        ScriptValue::Number(n) => Ok(LuaType::Number(*n)),
        ScriptValue::String(s) => Ok(LuaType::String(s.clone())),
        ScriptValue::Binary => Ok(LuaType::String(String::new())),
        ScriptValue::Table(entries) => {
            let ghost all = script_entries_view(entries@);
            let mut table: Vec<(String, LuaType)> = Vec::new();
            let mut i: usize = 0;
            assert(entries_view(table@) =~= Seq::empty());
            while i < entries.len()
                invariant
                    i <= entries.len(),
                    *value == ScriptValue::Table(*entries),
                    all == script_entries_view(entries@),
                    lowered_prefix(all, i as nat) == Some(entries_view(table@)),
                decreases entries.len() - i,
            {
                proof {
                    broadcast use vstd::std_specs::vec::axiom_vec_index_decreases;

                    assert(decreases_to!(*value => value->Table_0));
                    assert(decreases_to!(value->Table_0 => (value->Table_0)[i as int]));
                    assert(decreases_to!((value->Table_0)[i as int] => (value->Table_0)[i as int].1));
                    assert(all[i as int] == (entries@[i as int].0@, entries@[i as int].1@));
                }
                let ghost before = table@;
                match &entries[i].0 {
                    ScriptKey::Text(s) => {
                        let item = match lower(&entries[i].1) {
                            Ok(item) => item,
                            Err(error) => {
                                proof {
                                    lemma_prefix_failure(all, (i + 1) as nat);
                                }
                                return Err(error);
                            },
                        };
                        put(&mut table, s.clone(), item);
                        proof {
                            lemma_view_with_entry(before, table@, s@, item);
                        }
                    },
                    ScriptKey::Index(n) => {
                        let item = match lower(&entries[i].1) {
                            Ok(item) => item,
                            Err(error) => {
                                proof {
                                    lemma_prefix_failure(all, (i + 1) as nat);
                                }
                                return Err(error);
                            },
                        };
                        let key = decimal_text(*n);
                        put(&mut table, key, item);
                        proof {
                            lemma_view_with_entry(before, table@, decimal(*n as int), item);
                        }
                    },
                    ScriptKey::Other => {},
                }
                i += 1;
            }
            Ok(LuaType::Table(table))
        },
        ScriptValue::Cycle => Err(ConfigError::UnsupportedValue),
        ScriptValue::Other => Err(ConfigError::UnsupportedValue),
    }
}

/// What lowering gives holds no key twice, in any of its tables.
pub proof fn lemma_lowered_well_formed(value: ScriptValueView)
    ensures
        lowered(value) matches Some(lua_type) ==> well_formed(lua_type),
    decreases value, 0nat,
{
    match value {
        ScriptValueView::Table(entries) => {
            lemma_lowered_prefix_well_formed(entries, entries.len());
        },
        _ => {},
    }
}

/// The table that a prefix of the entries lowers to holds no key twice, and
/// neither does any value in it.
pub proof fn lemma_lowered_prefix_well_formed(
    entries: Seq<(ScriptKeyView, ScriptValueView)>,
    n: nat,
)
    ensures
        lowered_prefix(entries, n) matches Some(table) ==> distinct_keys(table) && forall|
            i: int,
        | 0 <= i < table.len() ==> well_formed(#[trigger] table[i].1),
    decreases entries, n,
{
    if n == 0 || n > entries.len() {
    } else {
        lemma_lowered_prefix_well_formed(entries, (n - 1) as nat);
        if let Some(table) = lowered_prefix(entries, (n - 1) as nat) {
            if let Some(key) = key_text(entries[n - 1].0) {
                lemma_lowered_well_formed(entries[n - 1].1);
                if let Some(value) = lowered(entries[n - 1].1) {
                    lemma_with_entry(table, key, value);
                    let after = with_entry(table, key, value);
                    if has_key(table, key) {
                        lemma_first_index(table, key);
                    }
                    assert forall|i: int| 0 <= i < after.len() implies well_formed(
                        #[trigger] after[i].1,
                    ) by {
                        if has_key(table, key) {
                            if i != first_index(table, key) {
                                assert(after[i] == table[i]);
                            }
                        } else {
                            if i < table.len() {
                                assert(after[i] == table[i]);
                            }
                        }
                    }
                }
            }
        }
    }
}

/// Once a prefix of the entries fails to lower, so does the whole table.
pub proof fn lemma_prefix_failure(entries: Seq<(ScriptKeyView, ScriptValueView)>, n: nat)
    requires
        n <= entries.len(),
        lowered_prefix(entries, n) is None,
    ensures
        lowered_prefix(entries, entries.len()) is None,
    decreases entries.len() - n,
{
    if n < entries.len() {
        lemma_prefix_failure(entries, n + 1);
    }
}

/// The configuration table that all the entries lower to, value by value
/// under the same keys, or `None` where some value has no configuration
/// value.
pub open spec fn lowered_all(entries: Seq<(Seq<char>, ScriptValue)>) -> Option<
    Seq<(Seq<char>, LuaTypeView)>,
> {
    if forall|i: int| 0 <= i < entries.len() ==> lowered((#[trigger] entries[i]).1@) is Some {
        Some(Seq::new(entries.len(), |i: int| (entries[i].0, lowered(entries[i].1@).unwrap())))
    } else {
        None
    }
}

/// Lowers every value of a table, keeping the keys and their order.
///
/// Fails with `UnsupportedValue` exactly where some value has no
/// configuration value.
pub fn convert_map(entries: &Vec<(String, ScriptValue)>) -> (result: Result<
    Vec<(String, LuaType)>,
    ConfigError,
>)
    ensures
        match result {
            Ok(table) => lowered_all(by_text(entries@)) == Some(entries_view(table@)),
            Err(error) => lowered_all(by_text(entries@)) is None && error
                == ConfigError::UnsupportedValue,
        },
{
    let mut table: Vec<(String, LuaType)> = Vec::new();
    let mut i: usize = 0;
    while i < entries.len()
        invariant
            i <= entries.len(),
            table@.len() == i,
            forall|j: int|
                0 <= j < i ==> lowered((#[trigger] by_text(entries@)[j]).1@) == Some(
                    table@[j].1@,
                ) && table@[j].0@ == entries@[j].0@,
        decreases entries.len() - i,
    {
        match lower(&entries[i].1) {
            Ok(value) => {
                table.push((entries[i].0.clone(), value));
            },
            Err(error) => {
                assert(lowered(by_text(entries@)[i as int].1@) is None);
                return Err(error);
            },
        }
        i += 1;
    }
    proof {
        let wanted = lowered_all(by_text(entries@)).unwrap();
        assert forall|j: int| 0 <= j < entries.len() implies entries_view(table@)[j]
            == wanted[j] by {
            assert(lowered(by_text(entries@)[j].1@) == Some(table@[j].1@));
        }
        assert(entries_view(table@) =~= wanted);
    }
    Ok(table)
}

/// The table that the first `n` entries of a script table give when each is
/// stored under the text of its key, or `None` where one of these keys has
/// no text. Of two entries that come to the same text the later one gives
/// the value.
pub open spec fn keyed(entries: Seq<(ScriptKey, ScriptValue)>, n: nat) -> Option<
    Seq<(Seq<char>, ScriptValue)>,
>
    decreases n,
{
    if n == 0 || n > entries.len() {
        Some(Seq::empty())
    } else {
        match keyed(entries, (n - 1) as nat) {
            None => None,
            Some(table) => match key_text(entries[n - 1].0@) {
                None => None,
                Some(key) => Some(with_entry(table, key, entries[n - 1].1)),
            },
        }
    }
}

/// A table made by `keyed` holds no key twice.
pub proof fn lemma_keyed_distinct(entries: Seq<(ScriptKey, ScriptValue)>, n: nat)
    requires
        keyed(entries, n) is Some,
    ensures
        distinct_keys(keyed(entries, n).unwrap()),
    decreases n,
{
    if n == 0 || n > entries.len() {
    } else {
        lemma_keyed_distinct(entries, (n - 1) as nat);
        let table = keyed(entries, (n - 1) as nat).unwrap();
        lemma_with_entry(table, key_text(entries[n - 1].0@).unwrap(), entries[n - 1].1);
    }
}

/// A table made by `keyed` from at least one entry has an entry.
pub proof fn lemma_keyed_nonempty(entries: Seq<(ScriptKey, ScriptValue)>, n: nat)
    requires
        0 < n <= entries.len(),
        keyed(entries, n) is Some,
    ensures
        keyed(entries, n).unwrap().len() > 0,
{
    let table = keyed(entries, (n - 1) as nat).unwrap();
    let key = key_text(entries[n - 1].0@).unwrap();
    assert(keyed(entries, n) == Some(with_entry(table, key, entries[n - 1].1)));
    if has_key(table, key) {
        lemma_first_index(table, key);
    }
}

/// Once a key without text is met, the whole table gives nothing.
pub proof fn lemma_keyed_failure(entries: Seq<(ScriptKey, ScriptValue)>, n: nat)
    requires
        n <= entries.len(),
        keyed(entries, n) is None,
    ensures
        keyed(entries, entries.len()) is None,
    decreases entries.len() - n,
{
    if n < entries.len() {
        lemma_keyed_failure(entries, n + 1);
    }
}

/// The vector with its items in the opposite order.
fn reversed<T>(items: Vec<T>) -> (result: Vec<T>)
    ensures
        result@ == items@.reverse(),
{
    let ghost given = items@;
    let mut items = items;
    let mut result: Vec<T> = Vec::new();
    while items.len() > 0
        invariant
            items@.len() <= given.len(),
            items@ == given.take(items@.len() as int),
            result@.len() == given.len() - items@.len(),
            forall|j: int| 0 <= j < result@.len() ==> result@[j] == given[given.len() - 1 - j],
        decreases items.len(),
    {
        let ghost n = items@.len() as int;
        match items.pop() {
            Some(item) => {
                assert(item == given[n - 1]) by {
                    assert(given.take(n)[n - 1] == given[n - 1]);
                }
                result.push(item);
                assert(items@ =~= given.take(n - 1));
            },
            None => {},
        }
    }
    assert(result@ =~= given.reverse());
    result
}

/// The entries that a function of a script returned, as a table keyed by
/// text.
///
/// Fails with `EmptyConfiguration` where `table` is a table without
/// entries, and with `ScriptCallFailure` where it is no table or one of its
/// keys has no text; both name `function_name`. Otherwise every entry is
/// stored under the text of its key, in order.
pub fn entries_of(table: ScriptValue, function_name: &str) -> (result: Result<
    Vec<(String, ScriptValue)>,
    ConfigError,
>)
    ensures
        match result {
            Ok(entries) => {
                &&& table matches ScriptValue::Table(pairs)
                &&& pairs@.len() > 0
                &&& keyed(pairs@, pairs@.len()) == Some(by_text(entries@))
                &&& distinct_keys(by_text(entries@))
            },
            Err(ConfigError::EmptyConfiguration(name)) => {
                &&& table matches ScriptValue::Table(pairs)
                &&& pairs@.len() == 0
                &&& name@ == function_name@
            },
            Err(ConfigError::ScriptCallFailure(name, _)) => {
                &&& name@ == function_name@
                &&& table matches ScriptValue::Table(pairs) ==> pairs@.len() > 0 && keyed(
                    pairs@,
                    pairs@.len(),
                ) is None
            },
            Err(_) => false,
        },
{
    let pairs = match table {
        ScriptValue::Table(pairs) => pairs,
        _ => {
            return Err(
                ConfigError::ScriptCallFailure(
                    function_name.to_owned(),
                    "the result is not a table".to_owned(),
                ),
            );
        },
    };
    if pairs.len() == 0 {
        return Err(ConfigError::EmptyConfiguration(function_name.to_owned()));
    }
    let ghost given = pairs@;
    let mut rest = reversed(pairs);
    let mut entries: Vec<(String, ScriptValue)> = Vec::new();
    assert(by_text(entries@) =~= Seq::empty());
    while rest.len() > 0
        invariant
            table matches ScriptValue::Table(all) && all@ == given,
            given.len() > 0,
            rest@.len() <= given.len(),
            rest@ == given.reverse().take(rest@.len() as int),
            keyed(given, (given.len() - rest@.len()) as nat) == Some(by_text(entries@)),
        decreases rest.len(),
    {
        let ghost n = rest@.len() as int;
        let ghost done = given.len() - n;
        match rest.pop() {
            Some((key, value)) => {
                assert(key == given[done].0 && value == given[done].1) by {
                    assert(given.reverse().take(n)[n - 1] == given.reverse()[n - 1]);
                }
                assert(rest@ =~= given.reverse().take(n - 1));
                let text = match key {
                    ScriptKey::Text(s) => s,
                    ScriptKey::Index(i) => decimal_text(i),
                    ScriptKey::Other => {
                        proof {
                            lemma_keyed_failure(given, (done + 1) as nat);
                        }
                        return Err(
                            ConfigError::ScriptCallFailure(
                                function_name.to_owned(),
                                "a key of the table has no text".to_owned(),
                            ),
                        );
                    },
                };
                put(&mut entries, text, value);
            },
            None => {},
        }
    }
    proof {
        lemma_keyed_distinct(given, given.len());
    }
    Ok(entries)
}

} // verus!
