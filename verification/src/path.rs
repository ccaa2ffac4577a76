//! Paths into nested tables.
//!
//! A path is a key, or several keys joined by `/`. Every key but the last
//! must lead to a table, in which the next key is looked up; the value under
//! the last key is what the path leads to, whatever kind it is.

use crate::table::{
    by_text, find, first_index, has_key, lemma_first_index, lemma_first_unique, value_of,
};
use crate::text::push_char;
use crate::value::LuaType;
use vstd::prelude::*;

verus! {

/// The segments of a path: the pieces between its `/` characters. A path
/// without `/` is one segment, and a `/` at either end or next to another
/// borders an empty segment.
pub open spec fn segments(path: Seq<char>) -> Seq<Seq<char>>
    decreases path.len(),
{
    if path.len() == 0 {
        seq![Seq::empty()]
    } else {
        let before = segments(path.drop_last());
        if path.last() == '/' {
            before.push(Seq::empty())
        } else {
            before.update(before.len() - 1, before.last().push(path.last()))
        }
    }
}

/// What the path with these segments leads to in the table.
pub open spec fn resolved(entries: Seq<(String, LuaType)>, path: Seq<Seq<char>>) -> Option<
    LuaType,
>
    decreases path.len(),
{
    if path.len() == 0 {
        None
    } else {
        match value_of(by_text(entries), path[0]) {
            None => None,
            Some(value) => if path.len() == 1 {
                Some(value)
            } else {
                match value {
                    LuaType::Table(inner) => resolved(inner@, path.drop_first()),
                    _ => None,
                }
            },
        }
    }
}

/// A path has at least one segment.
pub proof fn lemma_segments_nonempty(path: Seq<char>)
    ensures
        segments(path).len() >= 1,
    decreases path.len(),
{
    if path.len() > 0 {
        lemma_segments_nonempty(path.drop_last());
    }
}

/// The texts of the strings.
pub open spec fn texts(strings: Seq<String>) -> Seq<Seq<char>> {
    Seq::new(strings.len(), |i: int| strings[i]@)
}

/// Splits a path at its `/` characters.
pub fn split_path(path: &str) -> (pieces: Vec<String>)
    ensures
        texts(pieces@) == segments(path@),
        pieces@.len() >= 1,
{
    let mut pieces: Vec<String> = Vec::new();
    let mut current = String::new();
    let n = path.unicode_len();
    let mut i: usize = 0;
    assert(path@.take(0) =~= Seq::empty());
    assert(texts(pieces@).push(current@) =~= segments(path@.take(0)));
    while i < n
        invariant
            i <= n,
            n == path@.len(),
            texts(pieces@).push(current@) == segments(path@.take(i as int)),
        decreases n - i,
    {
        let c = path.get_char(i);
        let ghost before = path@.take(i as int);
        let ghost now = path@.take(i + 1);
        proof {
            assert(now.drop_last() =~= before);
            assert(now.last() == c);
        }
        if c == '/' {
            let ghost done = texts(pieces@).push(current@);
            pieces.push(current);
            current = String::new();
            assert(texts(pieces@).push(current@) =~= done.push(Seq::empty()));
        } else {
            let ghost done = texts(pieces@).push(current@);
            push_char(&mut current, c);
            assert(texts(pieces@).push(current@) =~= done.update(
                done.len() - 1,
                done.last().push(c),
            ));
        }
        i += 1;
    }
    assert(path@.take(n as int) =~= path@);
    let ghost done = texts(pieces@).push(current@);
    pieces.push(current);
    assert(texts(pieces@) =~= done);
    pieces
}

/// Follows a path through nested tables.
///
/// Gives the value that the path leads to, and `None` where a key of the
/// path is not in its table or a key before the last leads to something
/// that is no table.
pub fn lookup<'a>(entries: &'a Vec<(String, LuaType)>, path: &str) -> (found: Option<&'a LuaType>)
    ensures
        match found {
            Some(value) => resolved(entries@, segments(path@)) == Some(*value),
            None => resolved(entries@, segments(path@)) is None,
        },
{
    let pieces = split_path(path);
    let ghost all = segments(path@);
    let mut table: &Vec<(String, LuaType)> = entries;
    let mut i: usize = 0;
    assert(all.skip(0) =~= all);
    while i < pieces.len()
        invariant
            i < pieces.len(),
            all == segments(path@),
            texts(pieces@) == all,
            resolved(entries@, all) == resolved(table@, all.skip(i as int)),
        decreases pieces.len() - i,
    {
        let ghost rest = all.skip(i as int);
        assert(rest[0] == pieces@[i as int]@) by {
            assert(texts(pieces@)[i as int] == pieces@[i as int]@);
        }
        assert(rest.drop_first() =~= all.skip(i + 1));
        match find(table, &pieces[i]) {
            None => {
                return None;
            },
            Some(p) => {
                proof {
                    let keyed = by_text(table@);
                    assert(has_key(keyed, rest[0]));
                    lemma_first_index(keyed, rest[0]);
                    lemma_first_unique(keyed, rest[0], p as int, first_index(keyed, rest[0]));
                }
                let value = &table[p].1;
                if i + 1 == pieces.len() {
                    return Some(value);
                }
                match value {
                    LuaType::Table(inner) => {
                        table = inner;
                    },
                    _ => {
                        return None;
                    },
                }
            },
        }
        i += 1;
    }
    None
}

} // verus!
