//! The configuration values and their typed extraction.

use crate::number::{nearest_bits, truncated, Double};
use crate::table::distinct_keys;
use vstd::prelude::*;

verus! {

/// A configuration value: one of the kinds a Lua value can be copied to.
#[derive(Debug, PartialEq)]
pub enum LuaType {
    /// The absence of a value.
    Nil,
    Boolean(bool),
    Integer(i64),
    /// A number that is not an integer, by its bits.
    Number(Double),
    String(String),
    /// A table: its entries in the order in which they were stored. Tables
    /// made by this crate hold no key twice.
    Table(Vec<(String, LuaType)>),
}

/// The mathematical value of a [`LuaType`]: the same tree, with sequences in
/// place of vectors and strings.
pub enum LuaTypeView {
    Nil,
    Boolean(bool),
    Integer(i64),
    Number(Double),
    String(Seq<char>),
    Table(Seq<(Seq<char>, LuaTypeView)>),
}

/// The entries of a table, each key by its text and each value by its view.
pub open spec fn entries_view(entries: Seq<(String, LuaType)>) -> Seq<(Seq<char>, LuaTypeView)>
    decreases entries,
{
    Seq::new(
        entries.len(),
        |i: int|
            if 0 <= i < entries.len() {
                (entries[i].0@, entries[i].1.view())
            } else {
                (Seq::empty(), LuaTypeView::Nil)
            },
    )
}

impl View for LuaType {
    type V = LuaTypeView;

    open spec fn view(&self) -> LuaTypeView
        decreases self,
    {
        match self {
            LuaType::Nil => LuaTypeView::Nil,
            LuaType::Boolean(b) => LuaTypeView::Boolean(*b),
            LuaType::Integer(i) => LuaTypeView::Integer(*i),
            LuaType::Number(n) => LuaTypeView::Number(*n),
            LuaType::String(s) => LuaTypeView::String(s@),
            LuaType::Table(entries) => LuaTypeView::Table(entries_view(entries@)),
        }
    }
}

/// No table anywhere in the value holds a key twice.
pub open spec fn well_formed(value: LuaTypeView) -> bool
    decreases value,
{
    match value {
        LuaTypeView::Table(entries) => {
            &&& distinct_keys(entries)
            &&& forall|i: int| 0 <= i < entries.len() ==> well_formed(#[trigger] entries[i].1)
        },
        _ => true,
    }
}

/// Copies the entries of a table.
pub fn clone_entries(entries: &Vec<(String, LuaType)>) -> (copy: Vec<(String, LuaType)>)
    ensures
        entries_view(copy@) == entries_view(entries@),
    decreases entries,
{
    let mut copy: Vec<(String, LuaType)> = Vec::new();
    let mut i: usize = 0;
    while i < entries.len()
        invariant
            i <= entries.len(),
            copy@.len() == i,
            forall|j: int|
                0 <= j < i ==> (#[trigger] copy@[j]).0@ == entries@[j].0@ && copy@[j].1@
                    == entries@[j].1@,
        decreases entries.len() - i,
    {
        proof {
            broadcast use vstd::std_specs::vec::axiom_vec_index_decreases;

            assert(decreases_to!(entries => entries[i as int]));
            assert(decreases_to!(entries[i as int] => entries[i as int].1));
        }
        let key = entries[i].0.clone();
        let value = entries[i].1.clone();
        copy.push((key, value));
        i += 1;
    }
    assert(entries_view(copy@) =~= entries_view(entries@));
    copy
}

impl Clone for LuaType {
    /// A copy of the whole value.
    fn clone(&self) -> (copy: Self)
        ensures
            copy@ == self@,
        decreases self,
    {
        match self {
            LuaType::Nil => LuaType::Nil,
            LuaType::Boolean(b) => LuaType::Boolean(*b),
            LuaType::Integer(i) => LuaType::Integer(*i),
            LuaType::Number(n) => LuaType::Number(*n),
            LuaType::String(s) => LuaType::String(s.clone()),
            LuaType::Table(entries) => LuaType::Table(clone_entries(entries)),
        }
    }
}

/// The types a configuration value can be read as.
pub trait LuaConvert: Sized {
    /// `result` is what reading `lua_type` as this type gives.
    spec fn extracts(lua_type: &LuaType, result: Option<Self>) -> bool;

    /// Reads `lua_type` as this type; `None` where the value is of another
    /// kind or does not fit.
    fn from_lua_type(lua_type: &LuaType) -> (result: Option<Self>)
        ensures
            Self::extracts(lua_type, result),
    ;
}

impl LuaConvert for i32 {
    /// An integer that fits is taken as it is, one that does not fit gives
    /// nothing, and a number is cut to its whole part.
    open spec fn extracts(lua_type: &LuaType, result: Option<Self>) -> bool {
        result == match *lua_type {
            LuaType::Integer(i) => if i32::MIN <= i <= i32::MAX {
                Some(i as i32)
            } else {
                None
            },
            LuaType::Number(n) => Some(
                truncated(n.bits, i32::MIN as int, i32::MAX as int) as i32,
            ),
            _ => None,
        }
    }

    fn from_lua_type(lua_type: &LuaType) -> (result: Option<Self>) {
        match lua_type {
            LuaType::Integer(i) => {
                if *i >= -0x8000_0000 && *i <= 0x7fff_ffff {
                    Some(*i as i32)
                } else {
                    None
                }
            },
            LuaType::Number(n) => Some(n.to_i32()),
            _ => None,
        }
    }
}

impl LuaConvert for i64 {
    /// An integer is taken as it is and a number is cut to its whole part.
    open spec fn extracts(lua_type: &LuaType, result: Option<Self>) -> bool {
        result == match *lua_type {
            LuaType::Integer(i) => Some(i),
            LuaType::Number(n) => Some(
                truncated(n.bits, i64::MIN as int, i64::MAX as int) as i64,
            ),
            _ => None,
        }
    }

    fn from_lua_type(lua_type: &LuaType) -> (result: Option<Self>) {
        match lua_type {
            LuaType::Integer(i) => Some(*i),
            LuaType::Number(n) => Some(n.to_i64()),
            _ => None,
        }
    }
}

impl LuaConvert for Double {
    /// A number is taken as it is and an integer becomes the nearest number.
    open spec fn extracts(lua_type: &LuaType, result: Option<Self>) -> bool {
        match *lua_type {
            LuaType::Number(n) => result == Some(n),
            LuaType::Integer(i) => result matches Some(n) && n.bits == nearest_bits(i as int),
            _ => result is None,
        }
    }

    fn from_lua_type(lua_type: &LuaType) -> (result: Option<Self>) {
        match lua_type {
            LuaType::Number(n) => Some(*n),
            LuaType::Integer(i) => Some(Double::from_i64(*i)),
            _ => None,
        }
    }
}

impl LuaConvert for bool {
    /// Only a boolean gives one.
    open spec fn extracts(lua_type: &LuaType, result: Option<Self>) -> bool {
        result == match *lua_type {
            LuaType::Boolean(b) => Some(b),
            _ => None,
        }
    }

    fn from_lua_type(lua_type: &LuaType) -> (result: Option<Self>) {
        if let LuaType::Boolean(b) = lua_type {
            Some(*b)
        } else {
            None
        }
    }
}

impl LuaConvert for String {
    /// Only a string gives one: a copy of its text.
    open spec fn extracts(lua_type: &LuaType, result: Option<Self>) -> bool {
        match *lua_type {
            LuaType::String(s) => result matches Some(text) && text@ == s@,
            _ => result is None,
        }
    }

    fn from_lua_type(lua_type: &LuaType) -> (result: Option<Self>) {
        if let LuaType::String(s) = lua_type {
            Some(s.clone())
        } else {
            None
        }
    }
}

impl LuaConvert for Vec<(String, LuaType)> {
    /// Only a table gives one: a copy of its entries.
    open spec fn extracts(lua_type: &LuaType, result: Option<Self>) -> bool {
        match *lua_type {
            LuaType::Table(entries) => result matches Some(copy) && entries_view(copy@)
                == entries_view(entries@),
            _ => result is None,
        }
    }

    fn from_lua_type(lua_type: &LuaType) -> (result: Option<Self>) {
        if let LuaType::Table(entries) = lua_type {
            Some(clone_entries(entries))
        } else {
            None
        }
    }
}

impl LuaType {
    /// Reads the value as a `T`.
    pub fn to<T>(&self) -> (result: Option<T>) where T: LuaConvert
        ensures
            T::extracts(self, result),
    {
        T::from_lua_type(self)
    }
}

} // verus!
