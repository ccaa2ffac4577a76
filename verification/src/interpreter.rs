//! The embedded Lua interpreter.
//!
//! Everything that touches `rlua` is here. The interpreter's values are
//! handles into its state and opaque to the verifier; each call into the
//! crate is a wrapper of a line or two, and what the wrappers return is
//! copied into [`ScriptValue`]s before any decision is taken on it.
//!
//! What a script computes depends on the script, on the interpreter and,
//! through `fetch_data`, on the network, so the wrappers promise nothing of
//! it. The functions here state what holds of every outcome; the functions
//! that decide take the copied values as arguments.

use crate::error::ConfigError;
use crate::json::{fetched_table, table_for};
use crate::number::Double;
use crate::script::{
    entries_of, key_copy, keyed_by_text, lemma_keyed_nonempty, plain_copy, plain_of,
    script_entries_view, sendable, string_copy, Plain, ScriptKey, ScriptValue,
};
use crate::table::{by_text, distinct_keys};
use vstd::prelude::*;
use vstd::string::StringExecFns;

verus! {

#[verifier::external_type_specification]
#[verifier::external_body]
pub struct ExLua(rlua::Lua);

#[verifier::external_type_specification]
#[verifier::external_body]
pub struct ExValue<'lua>(rlua::Value<'lua>);

#[verifier::external_type_specification]
#[verifier::external_body]
pub struct ExTable<'lua>(rlua::Table<'lua>);

#[verifier::external_type_specification]
#[verifier::external_body]
pub struct ExFunction<'lua>(rlua::Function<'lua>);

#[verifier::external_type_specification]
#[verifier::external_body]
pub struct ExString<'lua>(rlua::String<'lua>);

#[verifier::external_type_specification]
#[verifier::external_body]
pub struct ExError(rlua::Error);

/// What kind of value an interpreter value is, with its content where the
/// content is plain and with its handle where it is not.
pub(crate) enum Shape<'lua> {
    Plain(Plain),
    String(rlua::String<'lua>),
    Table(rlua::Table<'lua>),
    Other,
}

/// A fresh interpreter with the safe part of Lua's standard library.
///
/// Trusted: wraps `rlua::Lua::new`.
#[verifier::external_body]
pub(crate) fn new_interpreter() -> rlua::Lua {
    rlua::Lua::new()
}

/// Compiles `code` and runs its top level.
///
/// Trusted: wraps `Lua::load` followed by `Chunk::exec`; `load` only records
/// the source. Nothing is promised of the outcome.
#[verifier::external_body]
fn run_source(lua: &rlua::Lua, code: &str) -> Result<(), rlua::Error> {
    lua.load(code).exec()
}

/// The table of the interpreter's global variables.
///
/// Trusted: wraps `Lua::globals`.
#[verifier::external_body]
fn globals<'lua>(lua: &'lua rlua::Lua) -> rlua::Table<'lua> {
    lua.globals()
}

/// Reads the function stored under `name`.
///
/// Trusted: wraps `Table::get` with a function as the wanted type. Nothing
/// is promised of the outcome.
#[verifier::external_body]
fn get_function<'lua>(table: &rlua::Table<'lua>, name: &str) -> Result<
    rlua::Function<'lua>,
    rlua::Error,
> {
    table.get::<_, rlua::Function>(name)
}

/// Stores a function under `name`.
///
/// Trusted: wraps `Table::set`. Nothing is promised of the outcome.
#[verifier::external_body]
fn set_function<'lua>(
    table: &rlua::Table<'lua>,
    name: &str,
    function: rlua::Function<'lua>,
) -> Result<(), rlua::Error> {
    table.set(name, function)
}

/// Calls a function without arguments and takes its result as a table.
///
/// Trusted: wraps `Function::call` with a table as the wanted type. Nothing
/// is promised of the outcome.
#[verifier::external_body]
fn call_for_table<'lua>(function: &rlua::Function<'lua>) -> Result<rlua::Table<'lua>, rlua::Error> {
    function.call::<_, rlua::Table>(())
}

/// Whether a table has no entry.
///
/// Trusted: wraps `Table::is_empty`. Nothing is promised of the answer.
#[verifier::external_body]
fn table_is_empty<'lua>(table: &rlua::Table<'lua>) -> bool {
    table.is_empty()
}

/// The entries of a table, in the order in which the interpreter walks them.
///
/// Trusted: wraps `Table::pairs` and collects what it yields, `None` for a
/// pair that the walk failed on. Nothing is promised of the entries.
#[verifier::external_body]
fn table_pairs<'lua>(table: &rlua::Table<'lua>) -> Vec<
    Option<(rlua::Value<'lua>, rlua::Value<'lua>)>,
> {
    table.clone().pairs::<rlua::Value, rlua::Value>().map(|pair| pair.ok()).collect()
}

/// A number that tells a table from every other table that is alive.
///
/// Trusted: wraps `Table::to_pointer`. Nothing is promised of the number.
#[verifier::external_body]
fn table_address<'lua>(table: &rlua::Table<'lua>) -> usize {
    table.to_pointer() as usize
}

/// The text of a key, as the interpreter gives it: a string as it is, a
/// number in the interpreter's notation, `None` for any other key and for a
/// string that is not valid UTF-8.
///
/// Trusted: wraps the conversion to `String` of `rlua::FromLua`. Nothing is
/// promised of the outcome.
#[verifier::external_body]
fn key_text<'lua>(lua: &'lua rlua::Lua, key: &rlua::Value<'lua>) -> Option<String> {
    <String as rlua::FromLua>::from_lua(key.clone(), lua).ok()
}

/// The text of a string, `None` where its bytes are not valid UTF-8.
///
/// Trusted: wraps `String::to_str`. Nothing is promised of the outcome.
#[verifier::external_body]
fn string_text<'lua>(string: &rlua::String<'lua>) -> Option<String> {
    string.to_str().ok().map(|text| text.to_owned())
}

/// The text of an error.
///
/// Trusted: wraps the `Display` of `rlua::Error`. Nothing is promised of
/// the text.
#[verifier::external_body]
fn error_text(error: &rlua::Error) -> String {
    error.to_string()
}

/// Tells the kinds of interpreter values apart.
///
/// Trusted: matches on `rlua::Value` and moves the content over, a number by
/// its bits. Light userdata, functions, threads, userdata and error objects
/// are `Other`. Nothing is promised of the result.
#[verifier::external_body]
fn shape_of<'lua>(value: &rlua::Value<'lua>) -> Shape<'lua> {
    match value {
        rlua::Value::Nil => Shape::Plain(Plain::Nil),
        rlua::Value::Boolean(b) => Shape::Plain(Plain::Boolean(*b)),
        rlua::Value::Integer(i) => Shape::Plain(Plain::Integer(*i)),
        rlua::Value::Number(n) => Shape::Plain(Plain::Number(Double { bits: n.to_bits() })),
        rlua::Value::String(s) => Shape::String(s.clone()),
        rlua::Value::Table(t) => Shape::Table(t.clone()),
        _ => Shape::Other,
    }
}

/// The interpreter value of a shape.
///
/// Trusted: builds the variant of `rlua::Value` of the same name around the
/// content of the shape, a number from its bits. `Other` has no variant
/// built here and is left out by the precondition.
#[verifier::external_body]
fn plain_value<'lua>(shape: Shape<'lua>) -> rlua::Value<'lua>
    requires
        !(shape is Other),
{
    match shape {
        Shape::Plain(Plain::Boolean(b)) => rlua::Value::Boolean(b),
        Shape::Plain(Plain::Integer(i)) => rlua::Value::Integer(i),
        Shape::Plain(Plain::Number(n)) => rlua::Value::Number(rlua::Number::from_bits(n.bits)),
        Shape::String(s) => rlua::Value::String(s),
        Shape::Table(t) => rlua::Value::Table(t),
        _ => rlua::Value::Nil,
    }
}

/// A new string of the interpreter.
///
/// Trusted: wraps `Lua::create_string`. Nothing is promised of the outcome.
#[verifier::external_body]
fn new_string<'lua>(lua: &'lua rlua::Lua, text: &str) -> Result<rlua::String<'lua>, rlua::Error> {
    lua.create_string(text)
}

/// A new, empty table of the interpreter.
///
/// Trusted: wraps `Lua::create_table`. Nothing is promised of the outcome.
#[verifier::external_body]
fn new_table<'lua>(lua: &'lua rlua::Lua) -> Result<rlua::Table<'lua>, rlua::Error> {
    lua.create_table()
}

/// Stores `value` under `key`.
///
/// Trusted: wraps `Table::set`. Nothing is promised of the outcome.
#[verifier::external_body]
fn set_entry<'lua>(
    table: &rlua::Table<'lua>,
    key: rlua::Value<'lua>,
    value: rlua::Value<'lua>,
) -> Result<(), rlua::Error> {
    table.set(key, value)
}

/// An error that a script sees as raised with this message.
///
/// Trusted: wraps `rlua::Error::runtime`.
#[verifier::external_body]
fn runtime_error(message: &str) -> rlua::Error {
    rlua::Error::runtime(message)
}

/// A function of the interpreter that runs [`fetch_data`] with `fetch`.
///
/// Trusted: wraps `Lua::create_function`. The closure handed to it takes
/// the argument of the call as a string and calls [`fetch_data`], which is
/// verified. Nothing is promised of the outcome.
#[verifier::external_body]
fn new_fetch_function<'lua, F>(lua: &'lua rlua::Lua, fetch: &F) -> Result<
    rlua::Function<'lua>,
    rlua::Error,
> where F: Fn(String) -> Result<String, String> + Clone + 'static
    requires
        forall|url: String| call_requires(*fetch, (url,)),
{
    let fetch = fetch.clone();
    lua.create_function(move |lua, url: String| fetch_data(lua, &fetch, url))
}

fn is_ancestor(ancestors: &Vec<usize>, address: usize) -> (found: bool)
    ensures
        found == ancestors@.contains(address),
{
    let mut i: usize = 0;
    while i < ancestors.len()
        invariant
            i <= ancestors.len(),
            forall|j: int| 0 <= j < i ==> ancestors@[j] != address,
        decreases ancestors.len() - i,
    {
        if ancestors[i] == address {
            return true;
        }
        i += 1;
    }
    false
}

/// Copies a value out of the interpreter.
///
/// A table is copied entry by entry, to any depth. `ancestors` holds the
/// tables inside which `value` was found; a table that is among them, and so
/// contains itself, is copied as `Cycle`, which ends the descent. The list
/// is handed back as it came. `value` is a value of `lua`.
///
/// What the copy holds is the interpreter's to say. Whatever it is, a value
/// that was found inside no table is not copied as `Cycle`, and every key of
/// every table in the copy is the text that the interpreter has for it, or
/// `Other`, see [`key_copy`]; a string is copied as [`string_copy`] says.
pub(crate) fn snapshot<'lua>(
    lua: &'lua rlua::Lua,
    value: &rlua::Value<'lua>,
    ancestors: &mut Vec<usize>,
) -> (copy: ScriptValue)
    ensures
        final(ancestors)@ == old(ancestors)@,
        copy is Cycle ==> old(ancestors)@.len() > 0,
        keyed_by_text(copy@),
    decreases usize::MAX - old(ancestors)@.len(),
{
    match shape_of(value) {
        Shape::Plain(plain) => plain_copy(plain),
        Shape::String(s) => string_copy(string_text(&s)),
        Shape::Table(table) => {
            let address = table_address(&table);
            if is_ancestor(ancestors, address) {
                assert(ancestors@.len() > 0);
                return ScriptValue::Cycle;
            }
            let pairs = table_pairs(&table);
            let mut entries: Vec<(ScriptKey, ScriptValue)> = Vec::new();
            ancestors.push(address);
            let mut i: usize = 0;
            while i < pairs.len()
                invariant
                    i <= pairs.len(),
                    ancestors@ == old(ancestors)@.push(address),
                    forall|j: int|
                        0 <= j < entries@.len() ==> !((#[trigger] entries@[j]).0 is Index)
                            && keyed_by_text(entries@[j].1@),
                decreases pairs.len() - i,
            {
                proof {
                    vstd::std_specs::vec::axiom_spec_len(ancestors);
                }
                match &pairs[i] {
                    Some((key, item)) => {
                        let key = key_copy(key_text(lua, key));
                        let item = snapshot(lua, item, ancestors);
                        entries.push((key, item));
                    },
                    None => {},
                }
                i += 1;
            }
            ancestors.pop();
            assert(ancestors@ =~= old(ancestors)@);
            proof {
                let copied = script_entries_view(entries@);
                assert forall|j: int| 0 <= j < copied.len() implies !((
                #[trigger] copied[j]).0 is Index) && keyed_by_text(copied[j].1) by {
                    assert(copied[j] == (entries@[j].0@, entries@[j].1@));
                    assert(!(entries@[j].0 is Index));
                }
            }
            ScriptValue::Table(entries)
        },
        Shape::Other => ScriptValue::Other,
    }
}

/// Builds a script value inside the interpreter.
///
/// Nil, booleans, integers, numbers, strings and tables of these under text
/// and integer keys are built. Any other value is refused with an error, as
/// is a table entry whose key is `Other`; and the call fails where the
/// interpreter cannot make a string or a table.
///
/// So a plain value, see [`plain_of`], is always built, a value that is not
/// [`sendable`] never is, and of a string or a table that is, the
/// interpreter decides.
pub fn send<'lua>(lua: &'lua rlua::Lua, value: &ScriptValue) -> (result: Result<
    rlua::Value<'lua>,
    rlua::Error,
>)
    ensures
        value is Nil || value is Boolean || value is Integer || value is Number ==> result is Ok,
        !sendable(value@) ==> result is Err,
    decreases value,
{
    match plain_of(value) {
        Some(plain) => {
            return Ok(plain_value(Shape::Plain(plain)));
        },
        None => {},
    }
    match value {
        ScriptValue::String(s) => match new_string(lua, s.as_str()) {
            Ok(string) => Ok(plain_value(Shape::String(string))),
            Err(error) => Err(error),
        },
        ScriptValue::Table(entries) => {
            let table = match new_table(lua) {
                Ok(table) => table,
                Err(error) => {
                    return Err(error);
                },
            };
            let ghost all = script_entries_view(entries@);
            let mut i: usize = 0;
            while i < entries.len()
                invariant
                    i <= entries.len(),
                    *value == ScriptValue::Table(*entries),
                    all == script_entries_view(entries@),
                    forall|j: int|
                        0 <= j < i ==> !((#[trigger] all[j]).0 is Other) && sendable(all[j].1),
                decreases entries.len() - i,
            {
                proof {
                    broadcast use vstd::std_specs::vec::axiom_vec_index_decreases;

                    assert(decreases_to!(*value => value->Table_0));
                    assert(decreases_to!(value->Table_0 => (value->Table_0)[i as int]));
                    assert(decreases_to!((value->Table_0)[i as int] => (value->Table_0)[i as int].1));
                    assert(all[i as int] == (entries@[i as int].0@, entries@[i as int].1@));
                }
                let key = match &entries[i].0 {
                    ScriptKey::Text(s) => match new_string(lua, s.as_str()) {
                        Ok(string) => plain_value(Shape::String(string)),
                        Err(error) => {
                            return Err(error);
                        },
                    },
                    ScriptKey::Index(n) => plain_value(Shape::Plain(Plain::Integer(*n))),
                    ScriptKey::Other => {
                        return Err(runtime_error("a table key has no text"));
                    },
                };
                let item = match send(lua, &entries[i].1) {
                    Ok(item) => item,
                    Err(error) => {
                        return Err(error);
                    },
                };
                match set_entry(&table, key, item) {
                    Ok(()) => {},
                    Err(error) => {
                        return Err(error);
                    },
                }
                i += 1;
            }
            Ok(plain_value(Shape::Table(table)))
        },
        _ => Err(runtime_error("the value cannot be given to a script")),
    }
}

/// What a script gets when it calls `fetch_data(url)`: the table for the
/// JSON document that `fetch` returns for `url`, or an error raised in the
/// script where `fetch` fails, where what it returns is no JSON document and
/// where the document is neither an object nor an array.
///
/// `fetch` and the interpreter decide the outcome. Whatever it is, the
/// script gets a value only where `fetch` gave a text for `url` and the text
/// is a document that has a table; see [`deliver`].
pub fn fetch_data<'lua, F>(lua: &'lua rlua::Lua, fetch: &F, url: String) -> (result: Result<
    rlua::Value<'lua>,
    rlua::Error,
>) where F: Fn(String) -> Result<String, String>
    requires
        forall|url: String| call_requires(*fetch, (url,)),
    ensures
        result is Ok ==> exists|text: String| #[trigger]
            call_ensures(*fetch, (url,), Ok::<String, String>(text)) && table_for(text@) is Ok,
{
    let fetched = fetch(url);
    deliver(lua, fetched)
}

/// What a script gets for what was fetched: the table that
/// [`fetched_table`] gives is built in the interpreter, and where it gives a
/// message, an error with that message is raised in the script. Of the
/// building of the table the interpreter decides.
pub fn deliver<'lua>(lua: &'lua rlua::Lua, fetched: Result<String, String>) -> (result: Result<
    rlua::Value<'lua>,
    rlua::Error,
>)
    ensures
        fetched is Err ==> result is Err,
        fetched matches Ok(text) ==> (table_for(text@) is Err ==> result is Err),
{
    match fetched_table(fetched) {
        Ok(table) => send(lua, &table),
        Err(message) => Err(runtime_error(message.as_str())),
    }
}

/// Makes `fetch_data` a global function of the interpreter.
pub fn declare_lua_functions<F>(lua: &rlua::Lua, fetch: &F) -> Result<(), rlua::Error> where
    F: Fn(String) -> Result<String, String> + Clone + 'static,

    requires
        forall|url: String| call_requires(*fetch, (url,)),
{
    let function = match new_fetch_function(lua, fetch) {
        Ok(function) => function,
        Err(error) => {
            return Err(error);
        },
    };
    let table = globals(lua);
    set_function(&table, "fetch_data", function)
}

/// Loads `code` and calls the function `function_name` that it defines;
/// gives the table that the function returned, keyed by text.
///
/// What comes back depends on the script. Whatever it is, a table that is
/// returned has at least one entry and no key twice, and a failure is one of
/// four: `ScriptLoadFailure` where the source does not load,
/// `MissingEntryPoint` where it defines no such function,
/// `ScriptCallFailure` where the call fails or returns no table keyed by
/// text, `EmptyConfiguration` where the table has no entry; the last three
/// name the function.
pub fn get_hashmap_by_function<F>(
    lua: &rlua::Lua,
    code: &str,
    function_name: &str,
    fetch: &F,
) -> (result: Result<Vec<(String, ScriptValue)>, ConfigError>) where
    F: Fn(String) -> Result<String, String> + Clone + 'static,

    requires
        forall|url: String| call_requires(*fetch, (url,)),
    ensures
        match result {
            Ok(entries) => entries@.len() > 0 && distinct_keys(by_text(entries@)),
            Err(ConfigError::ScriptLoadFailure(_)) => true,
            Err(ConfigError::MissingEntryPoint(name, _)) => name@ == function_name@,
            Err(ConfigError::ScriptCallFailure(name, _)) => name@ == function_name@,
            Err(ConfigError::EmptyConfiguration(name)) => name@ == function_name@,
            Err(_) => false,
        },
{
    match declare_lua_functions(lua, fetch) {
        Ok(()) => {},
        Err(error) => {
            return Err(ConfigError::ScriptLoadFailure(error_text(&error)));
        },
    }
    match run_source(lua, code) {
        Ok(()) => {},
        Err(error) => {
            return Err(ConfigError::ScriptLoadFailure(error_text(&error)));
        },
    }
    let table = globals(lua);
    let function = match get_function(&table, function_name) {
        Ok(function) => function,
        Err(error) => {
            return Err(
                ConfigError::MissingEntryPoint(function_name.to_owned(), error_text(&error)),
            );
        },
    };
    let returned = match call_for_table(&function) {
        Ok(returned) => returned,
        Err(error) => {
            return Err(
                ConfigError::ScriptCallFailure(function_name.to_owned(), error_text(&error)),
            );
        },
    };
    if table_is_empty(&returned) {
        return Err(ConfigError::EmptyConfiguration(function_name.to_owned()));
    }
    let mut ancestors: Vec<usize> = Vec::new();
    let copy = snapshot(lua, &plain_value(Shape::Table(returned)), &mut ancestors);
    let ghost given = copy;
    let result = entries_of(copy, function_name);
    proof {
        if result is Ok {
            lemma_keyed_nonempty(given->Table_0@, given->Table_0@.len());
        }
    }
    result
}

} // verus!
