//! Configuration values as indented text.
//!
//! `nil` is printed as `nil`; a boolean, an integer, a number and a string
//! as the name of the kind with the value in parentheses, the string in
//! double quotes; a table as `{`, one line `key = value` per entry, indented
//! by four spaces for each level of nesting, and `}` on a line of its own,
//! indented as the line the table began on.
//!
//! The decimal text of a number that is not an integer is not computed
//! here: the caller hands in the function that gives it.

use crate::number::Double;
use crate::text::{decimal, push_decimal, push_repeated, repeated};
use crate::value::{entries_view, LuaType, LuaTypeView};
use vstd::prelude::*;
use vstd::string::StringExecFns;

verus! {

/// The text that `format` gives for a number.
pub open spec fn number_text<F: Fn(Double) -> String>(format: F, number: Double) -> Seq<char> {
    (choose|s: String| call_ensures(format, (number,), s))@
}

/// `format` takes every number and gives one text for each.
pub open spec fn formats_numbers<F: Fn(Double) -> String>(format: F) -> bool {
    &&& forall|number: Double| #[trigger] call_requires(format, (number,))
    &&& forall|number: Double, s: String| #[trigger]
        call_ensures(format, (number,), s) ==> s@ == number_text(format, number)
}

/// The indentation of a line at nesting depth `depth`.
pub open spec fn indentation(depth: nat) -> Seq<char> {
    repeated(' ', 4 * depth)
}

/// The text of a boolean.
pub open spec fn boolean_text(b: bool) -> Seq<char> {
    if b {
        "true"@
    } else {
        "false"@
    }
}

/// The text of a value whose entries, if it is a table, are indented by
/// `inner` and whose closing brace is indented by `outer`.
pub open spec fn rendered<F: Fn(Double) -> String>(
    value: LuaTypeView,
    inner: Seq<char>,
    outer: Seq<char>,
    format: F,
) -> Seq<char>
    decreases value, 0nat,
{
    match value {
        LuaTypeView::Nil => "nil"@,
        LuaTypeView::Boolean(b) => "Boolean("@ + boolean_text(b) + ")"@,
        LuaTypeView::Integer(i) => "Integer("@ + decimal(i as int) + ")"@,
        LuaTypeView::Number(n) => "Number("@ + number_text(format, n) + ")"@,
        LuaTypeView::String(s) => "String(\""@ + s + "\")"@,
        LuaTypeView::Table(entries) => "{"@ + rendered_entries(
            entries,
            entries.len(),
            inner,
            format,
        ) + "\n"@ + outer + "}"@,
    }
}

/// The lines of the first `n` entries of a table, each begun by a line
/// break and indented by `inner`.
pub open spec fn rendered_entries<F: Fn(Double) -> String>(
    entries: Seq<(Seq<char>, LuaTypeView)>,
    n: nat,
    inner: Seq<char>,
    format: F,
) -> Seq<char>
    decreases entries, n,
{
    if n == 0 || n > entries.len() {
        Seq::empty()
    } else {
        rendered_entries(entries, (n - 1) as nat, inner, format) + "\n"@ + inner + entries[n
            - 1].0 + " = "@ + rendered(entries[n - 1].1, inner + "    "@, inner, format)
    }
}

/// The text of a value at nesting depth `depth`, which is 1 for a value
/// that stands by itself.
pub open spec fn rendered_at<F: Fn(Double) -> String>(
    value: LuaTypeView,
    depth: nat,
    format: F,
) -> Seq<char> {
    rendered(value, indentation(depth), indentation((depth - 1) as nat), format)
}

/// Appends the text of `value` to `out`.
pub fn write_value<F: Fn(Double) -> String>(
    out: &mut String,
    value: &LuaType,
    inner: &String,
    outer: &String,
    format: &F,
)
    requires
        formats_numbers(*format),
    ensures
        final(out)@ == old(out)@ + rendered(value@, inner@, outer@, *format),
    decreases value,
{
    match value {
        LuaType::Nil => {
            out.append("nil");
        },
        LuaType::Boolean(b) => {
            out.append("Boolean(");
            if *b {
                out.append("true");
            } else {
                out.append("false");
            }
            out.append(")");
            assert(out@ =~= old(out)@ + rendered(value@, inner@, outer@, *format));
        },
        LuaType::Integer(i) => {
            out.append("Integer(");
            push_decimal(out, *i);
            out.append(")");
            assert(out@ =~= old(out)@ + rendered(value@, inner@, outer@, *format));
        },
        LuaType::Number(n) => {
            out.append("Number(");
            let text = format(*n);
            out.append(text.as_str());
            out.append(")");
            assert(out@ =~= old(out)@ + rendered(value@, inner@, outer@, *format));
        },
        LuaType::String(s) => {
            out.append("String(\"");
            out.append(s.as_str());
            out.append("\")");
            assert(out@ =~= old(out)@ + rendered(value@, inner@, outer@, *format));
        },
        LuaType::Table(entries) => {
            out.append("{");
            let mut deeper = inner.clone();
            deeper.append("    ");
            let ghost all = entries_view(entries@);
            let mut i: usize = 0;
            assert(out@ =~= old(out)@ + "{"@ + rendered_entries(all, 0, inner@, *format));
            while i < entries.len()
                invariant
                    i <= entries.len(),
                    formats_numbers(*format),
                    *value == LuaType::Table(*entries),
                    all == entries_view(entries@),
                    deeper@ == inner@ + "    "@,
                    out@ == old(out)@ + "{"@ + rendered_entries(all, i as nat, inner@, *format),
                decreases entries.len() - i,
            {
                proof {
                    broadcast use vstd::std_specs::vec::axiom_vec_index_decreases;

                    assert(decreases_to!(*value => value->Table_0));
                    assert(decreases_to!(value->Table_0 => (value->Table_0)[i as int]));
                    assert(decreases_to!((value->Table_0)[i as int] => (value->Table_0)[i as int].1));
                    assert(all[i as int] == (entries@[i as int].0@, entries@[i as int].1@));
                }
                let ghost before = out@;
                out.append("\n");
                out.append(inner.as_str());
                out.append(entries[i].0.as_str());
                out.append(" = ");
                write_value(out, &entries[i].1, &deeper, inner, format);
                i += 1;
                assert(out@ =~= old(out)@ + "{"@ + rendered_entries(
                    all,
                    i as nat,
                    inner@,
                    *format,
                ));
            }
            out.append("\n");
            out.append(outer.as_str());
            out.append("}");
            assert(out@ =~= old(out)@ + rendered(value@, inner@, outer@, *format));
        },
    }
}

/// The text of `value` at nesting depth `depth`; a value that stands by
/// itself is at depth 1.
pub fn print_lua_type<F: Fn(Double) -> String>(value: &LuaType, depth: usize, format: &F) -> (text:
    String)
    requires
        1 <= depth <= usize::MAX / 4,
        formats_numbers(*format),
    ensures
        text@ == rendered_at(value@, depth as nat, *format),
{
    let mut inner = String::new();
    push_repeated(&mut inner, ' ', 4 * depth);
    let mut outer = String::new();
    push_repeated(&mut outer, ' ', 4 * (depth - 1));
    let mut text = String::new();
    write_value(&mut text, value, &inner, &outer, format);
    assert(inner@ =~= indentation(depth as nat));
    assert(outer@ =~= indentation((depth - 1) as nat));
    assert(text@ =~= rendered_at(value@, depth as nat, *format));
    text
}

} // verus!
