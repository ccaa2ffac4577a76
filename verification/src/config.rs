//! The configuration loader.
//!
//! A [`LuaConfig`] is made from the source of a script, may be given the
//! source of the defaults, and is then executed once: both scripts are run,
//! their tables merged and lowered, and the loader comes back with its data
//! filled in. After that it is only read.

use crate::error::ConfigError;
use crate::interpreter::{get_hashmap_by_function, new_interpreter};
use crate::merge::{
    default_by_text, law_configuration_overrides, law_declared_keys_give_the_keys_of_the_defaults,
    law_defaults_fill_in, law_undeclared_key_is_rejected, lemma_reconciled, merge, merged,
    reconciled, unknown_at,
};
use crate::number::Double;
use crate::path::{lookup, resolved, segments};
use crate::render::{formats_numbers, rendered_at, write_value};
use crate::script::{
    convert_map, lemma_lowered_well_formed, lowered, lowered_all, ScriptValue,
};
use crate::table::{
    as_map, by_text, distinct_keys, first_index, has_key, is_first, keys, lemma_first_index,
    lemma_first_unique, value_of,
};
use crate::value::{entries_view, well_formed, LuaConvert, LuaType, LuaTypeView};
use vstd::prelude::*;
use vstd::string::StringExecFns;
use vstd::utf8::{decode_utf8, valid_utf8};

verus! {

/// Why two tables give no configuration.
pub enum Rejection {
    /// The configuration sets this key, which the defaults do not declare.
    UnknownConfigKey(Seq<char>),
    /// A value of the merged table has no configuration value.
    UnsupportedValue,
}

/// The configuration that the table of `Config` and, where there is one, the
/// table of `Default` give: the two are merged, then every value of the
/// merged table is lowered.
pub open spec fn configuration(
    config: Seq<(Seq<char>, ScriptValue)>,
    default: Option<Seq<(Seq<char>, ScriptValue)>>,
) -> Result<Seq<(Seq<char>, LuaTypeView)>, Rejection> {
    match merged(config, default) {
        Err(key) => Err(Rejection::UnknownConfigKey(key)),
        Ok(entries) => match lowered_all(entries) {
            None => Err(Rejection::UnsupportedValue),
            Some(data) => Ok(data),
        },
    }
}

/// The rejection that an error reports, if it reports one.
pub open spec fn rejection_of(error: ConfigError) -> Option<Rejection> {
    match error {
        ConfigError::UnknownConfigKey(key) => Some(Rejection::UnknownConfigKey(key@)),
        ConfigError::UnsupportedValue => Some(Rejection::UnsupportedValue),
        _ => None,
    }
}

/// Merges the table that `Config` returned with the one that `Default`
/// returned, if there are defaults, and lowers the result.
///
/// Fails with `UnknownConfigKey` where the configuration sets a key that the
/// defaults do not declare, naming the first such key, and with
/// `UnsupportedValue` where a value of the merged table has no
/// configuration value.
pub fn resolve(
    config: Vec<(String, ScriptValue)>,
    default: Option<Vec<(String, ScriptValue)>>,
) -> (result: Result<Vec<(String, LuaType)>, ConfigError>)
    requires
        distinct_keys(by_text(config@)),
        default matches Some(d) ==> distinct_keys(by_text(d@)),
    ensures
        match result {
            Ok(data) => configuration(by_text(config@), default_by_text(default)) == Ok::<
                Seq<(Seq<char>, LuaTypeView)>,
                Rejection,
            >(entries_view(data@)),
            Err(error) => rejection_of(error) matches Some(rejection) && configuration(
                by_text(config@),
                default_by_text(default),
            ) == Err::<Seq<(Seq<char>, LuaTypeView)>, Rejection>(rejection),
        },
{
    match merge(config, default) {
        Ok(entries) => convert_map(&entries),
        Err(error) => Err(error),
    }
}

/// The text that the bytes encode.
///
/// Trusted: wraps `std::str::from_utf8`, which the standard library
/// documents as succeeding exactly on valid UTF-8 and giving the text that
/// the bytes encode.
#[verifier::external_body]
fn text_of(bytes: &[u8]) -> (text: Option<&str>)
    ensures
        text is Some <==> valid_utf8(bytes@),
        text matches Some(s) ==> s@ == decode_utf8(bytes@),
{
    std::str::from_utf8(bytes).ok()
}

/// A configuration and the sources it is loaded from.
pub struct LuaConfig {
    /// The configuration: empty until [`LuaConfig::execute`] has run.
    pub data: Vec<(String, LuaType)>,
    config: String,
    default: Option<String>,
}

impl LuaConfig {
    /// The entries of the configuration, in order.
    pub closed spec fn entries(&self) -> Seq<(String, LuaType)> {
        self.data@
    }

    /// The source of the configuration script.
    pub closed spec fn config_source(&self) -> Seq<char> {
        self.config@
    }

    /// The source of the defaults, if one was given.
    pub closed spec fn default_source(&self) -> Option<Seq<char>> {
        match self.default {
            Some(text) => Some(text@),
            None => None,
        }
    }

    /// The configuration, entry by entry.
    pub fn values(&self) -> (data: &Vec<(String, LuaType)>)
        ensures
            data@ == self.entries(),
    {
        &self.data
    }

    /// A loader for the script `file`, without defaults and without data.
    pub fn from_string(file: String) -> (loader: Self)
        ensures
            loader.entries().len() == 0,
            loader.config_source() == file@,
            loader.default_source() is None,
    {
        LuaConfig { data: Vec::new(), config: file, default: None }
    }

    /// Gives the loader the source of the defaults.
    ///
    /// Fails with `EncodingFailure` exactly where the bytes are not valid
    /// UTF-8.
    pub fn with_default(self, default: &[u8]) -> (result: Result<Self, ConfigError>)
        ensures
            match result {
                Ok(loader) => {
                    &&& valid_utf8(default@)
                    &&& loader.default_source() == Some(decode_utf8(default@))
                    &&& loader.config_source() == self.config_source()
                    &&& loader.entries() == self.entries()
                },
                Err(error) => !valid_utf8(default@) && error == ConfigError::EncodingFailure,
            },
    {
        match text_of(default) {
            Some(text) => {
                let mut loader = self;
                loader.default = Some(text.to_owned());
                Ok(loader)
            },
            None => Err(ConfigError::EncodingFailure),
        }
    }

    /// Runs the scripts and fills in the data.
    ///
    /// `Config` is called first and, where defaults were given, `Default`
    /// after it, in one interpreter; a failure of the first is reported
    /// without the second being run. The two tables then go through
    /// [`resolve`]. A script that calls `fetch_data(url)` gets the table for
    /// the JSON document that `fetch` returns for the address.
    ///
    /// What the scripts return is theirs to decide. Whatever it is, a loader
    /// that comes back has data, no key twice in any of its tables, and the
    /// sources it had. A failure is none of `IOFailure` and
    /// `EncodingFailure`; it is `UnknownConfigKey` only where defaults were
    /// given; and a failure that names a function names `Config`, or
    /// `Default` where defaults were given.
    pub fn execute<F>(self, fetch: F) -> (result: Result<Self, ConfigError>) where
        F: Fn(String) -> Result<String, String> + Clone + 'static,

        requires
            forall|url: String| call_requires(fetch, (url,)),
        ensures
            match result {
                Ok(loader) => {
                    &&& loader.entries().len() > 0
                    &&& well_formed(LuaTypeView::Table(entries_view(loader.entries())))
                    &&& loader.config_source() == self.config_source()
                    &&& loader.default_source() == self.default_source()
                },
                Err(error) => {
                    &&& !(error is IOFailure) && !(error is EncodingFailure)
                    &&& error is UnknownConfigKey ==> self.default_source() is Some
                    &&& error matches ConfigError::MissingEntryPoint(name, _) ==> names_entry_point(
                        name@,
                        self.default_source() is Some,
                    )
                    &&& error matches ConfigError::ScriptCallFailure(name, _) ==> names_entry_point(
                        name@,
                        self.default_source() is Some,
                    )
                    &&& error matches ConfigError::EmptyConfiguration(name) ==> names_entry_point(
                        name@,
                        self.default_source() is Some,
                    )
                },
            },
    {
        let lua = new_interpreter();
        let config_values = match get_hashmap_by_function(
            &lua,
            self.config.as_str(),
            "Config",
            &fetch,
        ) {
            Ok(values) => values,
            Err(error) => {
                return Err(error);
            },
        };
        let default_values = match &self.default {
            Some(source) => match get_hashmap_by_function(
                &lua,
                source.as_str(),
                "Default",
                &fetch,
            ) {
                Ok(values) => Some(values),
                Err(error) => {
                    return Err(error);
                },
            },
            None => None,
        };
        let ghost wanted = by_text(config_values@);
        let ghost declared = default_by_text(default_values);
        match resolve(config_values, default_values) {
            Ok(data) => {
                proof {
                    lemma_configuration_shape(wanted, declared);
                }
                let mut loader = self;
                loader.data = data;
                Ok(loader)
            },
            Err(error) => Err(error),
        }
    }

    /// The value that `key` leads to, read as a `T`. `key` is a path: one
    /// key, or several joined by `/`.
    ///
    /// `None` where the path leads to nothing and where the value is not a
    /// `T`.
    pub fn get<T>(&self, key: &str) -> (found: Option<T>) where T: LuaConvert
        ensures
            match resolved(self.entries(), segments(key@)) {
                Some(value) => T::extracts(&value, found),
                None => found is None,
            },
    {
        match self.get_lua_type(key) {
            Some(value) => value.to(),
            None => None,
        }
    }

    /// The value that `key` leads to; see [`lookup`].
    pub fn get_lua_type(&self, key: &str) -> (found: Option<&LuaType>)
        ensures
            match found {
                Some(value) => resolved(self.entries(), segments(key@)) == Some(*value),
                None => resolved(self.entries(), segments(key@)) is None,
            },
    {
        lookup(&self.data, key)
    }

    /// The configuration as text: for every entry a line `key = value`, the
    /// value printed as [`crate::render::print_lua_type`] prints it at
    /// depth 1. `format` gives the text of a number.
    pub fn to_string<F: Fn(Double) -> String>(&self, format: &F) -> (text: String)
        requires
            formats_numbers(*format),
        ensures
            text@ == listing(entries_view(self.entries()), self.entries().len(), *format),
    {
        let mut text = String::new();
        let inner = "    ".to_owned();
        let outer = String::new();
        let ghost all = entries_view(self.data@);
        let mut i: usize = 0;
        proof {
            reveal_strlit("    ");
            assert(inner@ =~= crate::render::indentation(1));
            assert(outer@ =~= crate::render::indentation(0));
        }
        assert(text@ =~= listing(all, 0, *format));
        while i < self.data.len()
            invariant
                i <= self.data.len(),
                formats_numbers(*format),
                all == entries_view(self.data@),
                inner@ == crate::render::indentation(1),
                outer@ == crate::render::indentation(0),
                text@ == listing(all, i as nat, *format),
            decreases self.data.len() - i,
        {
            assert(all[i as int] == (self.data@[i as int].0@, self.data@[i as int].1@));
            text.append(self.data[i].0.as_str());
            text.append(" = ");
            write_value(&mut text, &self.data[i].1, &inner, &outer, format);
            text.append("\n");
            i += 1;
            assert(text@ =~= listing(all, i as nat, *format));
        }
        text
    }
}

/// `name` is the name of a function that the loader calls: `Config`, or
/// `Default` where there are defaults.
pub open spec fn names_entry_point(name: Seq<char>, with_defaults: bool) -> bool {
    name == "Config"@ || (with_defaults && name == "Default"@)
}

/// The lines of the first `n` entries of a configuration.
pub open spec fn listing<F: Fn(Double) -> String>(
    entries: Seq<(Seq<char>, LuaTypeView)>,
    n: nat,
    format: F,
) -> Seq<char>
    decreases n,
{
    if n == 0 || n > entries.len() {
        Seq::empty()
    } else {
        listing(entries, (n - 1) as nat, format) + entries[n - 1].0 + " = "@ + rendered_at(
            entries[n - 1].1,
            1,
            format,
        ) + "\n"@
    }
}

/// A configuration made from a table with entries, and from defaults
/// without repeated keys where there are any, has entries and no key twice
/// in any of its tables.
pub proof fn lemma_configuration_shape(
    config: Seq<(Seq<char>, ScriptValue)>,
    default: Option<Seq<(Seq<char>, ScriptValue)>>,
)
    requires
        config.len() > 0,
        distinct_keys(config),
        default matches Some(d) ==> distinct_keys(d),
        configuration(config, default) is Ok,
    ensures
        configuration(config, default)->Ok_0.len() > 0,
        well_formed(LuaTypeView::Table(configuration(config, default)->Ok_0)),
{
    let entries = merged(config, default)->Ok_0;
    let data = lowered_all(entries)->Some_0;
    match default {
        None => {},
        Some(d) => {
            lemma_reconciled(config, d);
            assert(!unknown_at(config, d, 0));
            let w = choose|w: int| 0 <= w < d.len() && (#[trigger] d[w]).0 == config[0].0;
            assert(d.len() > 0);
        },
    }
    assert forall|i: int, j: int| 0 <= i < j < data.len() implies (#[trigger] data[i]).0 != (
    #[trigger] data[j]).0 by {
        assert(entries[i].0 != entries[j].0);
    }
    assert forall|i: int| 0 <= i < data.len() implies well_formed(#[trigger] data[i].1) by {
        lemma_lowered_well_formed(entries[i].1@);
    }
}

/// Lowering a table keeps its keys, and under each key stands the lowered
/// value.
pub proof fn lemma_lowered_all(entries: Seq<(Seq<char>, ScriptValue)>, key: Seq<char>)
    requires
        lowered_all(entries) is Some,
    ensures
        keys(lowered_all(entries)->Some_0) == keys(entries),
        has_key(lowered_all(entries)->Some_0, key) == has_key(entries, key),
        has_key(entries, key) ==> value_of(lowered_all(entries)->Some_0, key) == lowered(
            value_of(entries, key)->Some_0@,
        ),
{
    let data = lowered_all(entries)->Some_0;
    assert(keys(data) =~= keys(entries));
    if has_key(entries, key) {
        let i = choose|i: int| 0 <= i < entries.len() && (#[trigger] entries[i]).0 == key;
        assert(data[i].0 == key);
        lemma_first_index(entries, key);
        lemma_first_index(data, key);
        let f = first_index(entries, key);
        assert(is_first(data, key, f)) by {
            assert(data[f].0 == entries[f].0);
            assert forall|j: int| 0 <= j < f implies (#[trigger] data[j]).0 != key by {
                assert(entries[j].0 != key);
            }
        }
        lemma_first_unique(data, key, f, first_index(data, key));
    }
    if has_key(data, key) {
        let i = choose|i: int| 0 <= i < data.len() && (#[trigger] data[i]).0 == key;
        assert(entries[i].0 == key);
    }
}

/// Where the configuration sets declared keys only and every value of the
/// merged table can be lowered, loading succeeds and the configuration has
/// exactly the keys of the defaults.
pub proof fn law_configuration_has_the_keys_of_the_defaults(
    config: Seq<(Seq<char>, ScriptValue)>,
    default: Seq<(Seq<char>, ScriptValue)>,
)
    requires
        distinct_keys(default),
        forall|k: Seq<char>| has_key(config, k) ==> has_key(default, k),
        lowered_all(reconciled(config, default)) is Some,
    ensures
        configuration(config, Some(default)) is Ok,
        keys(configuration(config, Some(default))->Ok_0) == keys(default),
        forall|k: Seq<char>|
            has_key(configuration(config, Some(default))->Ok_0, k) == has_key(default, k),
{
    law_declared_keys_give_the_keys_of_the_defaults(config, default);
    let entries = reconciled(config, default);
    lemma_lowered_all(entries, Seq::empty());
    assert forall|k: Seq<char>|
        has_key(configuration(config, Some(default))->Ok_0, k) == has_key(default, k) by {
        lemma_lowered_all(entries, k);
        assert(has_key(entries, k) == as_map(entries).dom().contains(k));
        assert(has_key(default, k) == as_map(default).dom().contains(k));
    }
}

/// A configuration that sets a key the defaults do not declare is not
/// loaded: the failure is `UnknownConfigKey`, and the key it names is set by
/// the configuration and not declared by the defaults.
pub proof fn law_configuration_rejects_undeclared_key(
    config: Seq<(Seq<char>, ScriptValue)>,
    default: Seq<(Seq<char>, ScriptValue)>,
    key: Seq<char>,
)
    requires
        has_key(config, key),
        !has_key(default, key),
    ensures
        configuration(config, Some(default)) matches Err(Rejection::UnknownConfigKey(named))
            && has_key(config, named) && !has_key(default, named),
{
    law_undeclared_key_is_rejected(config, default, key);
}

/// Under a key that both tables hold, a loaded configuration has the
/// lowered value of the configuration, not that of the defaults.
pub proof fn law_configuration_value_overrides(
    config: Seq<(Seq<char>, ScriptValue)>,
    default: Seq<(Seq<char>, ScriptValue)>,
    key: Seq<char>,
)
    requires
        distinct_keys(default),
        configuration(config, Some(default)) is Ok,
        has_key(config, key),
        has_key(default, key),
    ensures
        value_of(configuration(config, Some(default))->Ok_0, key) == lowered(
            value_of(config, key)->Some_0@,
        ),
{
    let entries = reconciled(config, default);
    law_configuration_overrides(config, default, key);
    lemma_reconciled(config, default);
    assert(as_map(default).dom().contains(key));
    assert(as_map(entries).dom().contains(key));
    lemma_lowered_all(entries, key);
}

/// Under a key that only the defaults hold, a loaded configuration has the
/// lowered value of the defaults.
pub proof fn law_configuration_default_fills_in(
    config: Seq<(Seq<char>, ScriptValue)>,
    default: Seq<(Seq<char>, ScriptValue)>,
    key: Seq<char>,
)
    requires
        distinct_keys(default),
        configuration(config, Some(default)) is Ok,
        !has_key(config, key),
        has_key(default, key),
    ensures
        value_of(configuration(config, Some(default))->Ok_0, key) == lowered(
            value_of(default, key)->Some_0@,
        ),
{
    let entries = reconciled(config, default);
    law_defaults_fill_in(config, default, key);
    lemma_reconciled(config, default);
    assert(as_map(default).dom().contains(key));
    assert(as_map(entries).dom().contains(key));
    lemma_lowered_all(entries, key);
}

/// Without defaults the configuration is the table of `Config`, key for key
/// and each value lowered; no key is rejected.
pub proof fn law_configuration_without_defaults(config: Seq<(Seq<char>, ScriptValue)>)
    ensures
        configuration(config, None) is Ok <==> lowered_all(config) is Some,
        configuration(config, None) matches Ok(data) ==> {
            &&& lowered_all(config) == Some(data)
            &&& keys(data) == keys(config)
        },
        !(configuration(config, None) matches Err(Rejection::UnknownConfigKey(_))),
{
    if lowered_all(config) is Some {
        lemma_lowered_all(config, Seq::empty());
    }
}

} // verus!
