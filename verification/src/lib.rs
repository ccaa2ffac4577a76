//! Configuration written as Lua scripts.
//!
//! A configuration script defines a function `Config` that returns a table;
//! an optional second script defines `Default`, the table of every key the
//! configuration may set together with its fallback value. The two tables are
//! reconciled, copied out of the interpreter into [`LuaType`] values and
//! queried by `/`-separated paths.
//!
//! Every function in this crate is verified except the small wrappers around
//! `rlua`, `json` and a few `std` functions; each of those says in its doc
//! comment what is taken on trust.

pub mod config;
pub mod error;
pub mod interpreter;
pub mod json;
pub mod merge;
pub mod number;
pub mod path;
pub mod render;
pub mod script;
pub mod table;
pub mod text;
pub mod value;

pub use config::LuaConfig;
pub use error::ConfigError;
pub use number::Double;
pub use value::{LuaConvert, LuaType};
