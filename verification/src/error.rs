//! The single error type of the crate.

use vstd::prelude::*;
use vstd::string::StringExecFns;

verus! {

/// Why a configuration could not be loaded.
#[derive(Debug, PartialEq)]
pub enum ConfigError {
    /// The source file could not be read. The text is the system's reason.
    /// Reported by the code that reads the file for the loader.
    IOFailure(String),
    /// The bytes given as the default source are not valid UTF-8.
    EncodingFailure,
    /// The source did not compile or its top level raised an error, or the
    /// script environment could not be prepared. The text is the
    /// interpreter's reason.
    ScriptLoadFailure(String),
    /// The source defined no function of this name. The second text is the
    /// interpreter's reason.
    MissingEntryPoint(String, String),
    /// The function of this name raised an error, or what it returned is
    /// not a table whose keys all have text. The second text is the reason.
    ScriptCallFailure(String, String),
    /// The function of this name returned a table without entries.
    EmptyConfiguration(String),
    /// The configuration sets this key although the defaults do not declare it.
    UnknownConfigKey(String),
    /// A value was met that has no counterpart among the configuration
    /// values: a function, a coroutine, userdata, or a table that contains
    /// itself.
    UnsupportedValue,
}

impl ConfigError {
    /// The text of [`ConfigError::message`].
    pub open spec fn message_text(self) -> Seq<char> {
        match self {
            ConfigError::IOFailure(reason) => reason@,
            ConfigError::EncodingFailure => "The default source is not valid UTF-8"@,
            ConfigError::ScriptLoadFailure(reason) => reason@,
            ConfigError::MissingEntryPoint(name, reason) => "Error getting function "@ + name@
                + ": "@ + reason@,
            ConfigError::ScriptCallFailure(name, reason) => "Error calling function "@ + name@
                + ": "@ + reason@,
            ConfigError::EmptyConfiguration(name) => "Function "@ + name@
                + " returned an empty table"@,
            ConfigError::UnknownConfigKey(key) => "Config value \""@ + key@
                + "\" is not in the default values"@,
            ConfigError::UnsupportedValue => "Conversion for this Lua type is not implemented yet"@,
        }
    }

    /// The error in words. An unknown key is named in it.
    pub fn message(&self) -> (text: String)
        ensures
            text@ == self.message_text(),
    {
        match self {
            ConfigError::IOFailure(reason) => reason.clone(),
            ConfigError::EncodingFailure => "The default source is not valid UTF-8".to_owned(),
            ConfigError::ScriptLoadFailure(reason) => reason.clone(),
            ConfigError::MissingEntryPoint(name, reason) => {
                let mut text = "Error getting function ".to_owned();
                text.append(name.as_str());
                text.append(": ");
                text.append(reason.as_str());
                text
            },
            ConfigError::ScriptCallFailure(name, reason) => {
                let mut text = "Error calling function ".to_owned();
                text.append(name.as_str());
                text.append(": ");
                text.append(reason.as_str());
                text
            },
            ConfigError::EmptyConfiguration(name) => {
                let mut text = "Function ".to_owned();
                text.append(name.as_str());
                text.append(" returned an empty table");
                text
            },
            ConfigError::UnknownConfigKey(key) => {
                let mut text = "Config value \"".to_owned();
                text.append(key.as_str());
                text.append("\" is not in the default values");
                text
            },
            ConfigError::UnsupportedValue => "Conversion for this Lua type is not implemented yet".to_owned(),
        }
    }
}

} // verus!
