//! Rendering structured values as pretty-printed text, four spaces per
//! indent level: the form in which the audit log and object dumps are
//! persisted.

use vstd::prelude::*;
use vstd::string::StrSliceExecFns;
use crate::json::{JsonValue, JsonModel, arr_model, obj_model, lemma_arr_model, lemma_obj_model};
use crate::text::{chars_to_string, dec_digits, push_dec_digits};

verus! {

broadcast use vstd::seq::axiom_seq_index_decreases, vstd::seq::axiom_seq_subrange_decreases;

/// The lower-case hexadecimal digit for a value below sixteen.
pub open spec fn hex_digit(d: u32) -> char {
    if d == 0 { '0' }
    else if d == 1 { '1' }
    else if d == 2 { '2' }
    else if d == 3 { '3' }
    else if d == 4 { '4' }
    else if d == 5 { '5' }
    else if d == 6 { '6' }
    else if d == 7 { '7' }
    else if d == 8 { '8' }
    else if d == 9 { '9' }
    else if d == 10 { 'a' }
    else if d == 11 { 'b' }
    else if d == 12 { 'c' }
    else if d == 13 { 'd' }
    else if d == 14 { 'e' }
    else { 'f' }
}

/// How one character is written inside a quoted string: quote, backslash
/// and the common control characters get a two-character escape, any other
/// control character a four-digit one, and everything else stands as it is.
pub open spec fn esc_char(c: char) -> Seq<char> {
    if c == '"' {
        seq!['\\', '"']
    } else if c == '\\' {
        seq!['\\', '\\']
    } else if c == '\n' {
        seq!['\\', 'n']
    } else if c == '\t' {
        seq!['\\', 't']
    } else if c == '\r' {
        seq!['\\', 'r']
    } else if (c as u32) < 32 {
        seq!['\\', 'u', '0', '0', hex_digit((c as u32) / 16), hex_digit((c as u32) % 16)]
    } else {
        seq![c]
    }
}

/// A string's characters, escaped.
pub open spec fn esc_str(s: Seq<char>) -> Seq<char>
    decreases s.len(),
{
    if s.len() == 0 {
        Seq::empty()
    } else {
        esc_str(s.drop_last()) + esc_char(s.last())
    }
}

/// A string as written: quoted and escaped.
pub open spec fn quoted(s: Seq<char>) -> Seq<char> {
    seq!['"'] + esc_str(s) + seq!['"']
}

/// The spaces that one indent level deep content is preceded by.
pub open spec fn indent_sp(ind: nat) -> Seq<char>
    decreases ind,
{
    if ind == 0 {
        Seq::empty()
    } else {
        indent_sp((ind - 1) as nat) + seq![' ', ' ', ' ', ' ']
    }
}

/// The pretty rendering of a value standing at the given indent level.
pub open spec fn render(m: JsonModel, ind: nat) -> Seq<char>
    decreases m, 1int,
{
    match m {
        JsonModel::Null => seq!['n', 'u', 'l', 'l'],
        JsonModel::Bool(b) => if b {
            seq!['t', 'r', 'u', 'e']
        } else {
            seq!['f', 'a', 'l', 's', 'e']
        },
        JsonModel::Num(n) => dec_digits(n),
        JsonModel::Str(s) => quoted(s),
        JsonModel::Arr(items) => if items.len() == 0 {
            seq!['[', ']']
        } else {
            seq!['['] + render_items(items, ind + 1) + seq!['\n'] + indent_sp(ind) + seq![']']
        },
        JsonModel::Obj(members) => if members.len() == 0 {
            seq!['{', '}']
        } else {
            seq!['{'] + render_members(members, ind + 1) + seq!['\n'] + indent_sp(ind) + seq!['}']
        },
    }
}

/// The elements of a non-empty array, each on its own indented line,
/// separated by commas.
pub open spec fn render_items(items: Seq<JsonModel>, ind: nat) -> Seq<char>
    decreases items, 0int,
{
    if items.len() == 0 {
        Seq::empty()
    } else if items.len() == 1 {
        seq!['\n'] + indent_sp(ind) + render(items.last(), ind)
    } else {
        render_items(items.drop_last(), ind) + seq![',', '\n'] + indent_sp(ind) + render(
            items.last(),
            ind,
        )
    }
}

/// The members of a non-empty object, each on its own indented line as
/// `"key": value`, separated by commas.
pub open spec fn render_members(members: Seq<(Seq<char>, JsonModel)>, ind: nat) -> Seq<char>
    decreases members, 0int,
{
    if members.len() == 0 {
        Seq::empty()
    } else if members.len() == 1 {
        seq!['\n'] + indent_sp(ind) + quoted(members.last().0) + seq![':', ' '] + render(
            members.last().1,
            ind,
        )
    } else {
        render_members(members.drop_last(), ind) + seq![',', '\n'] + indent_sp(ind) + quoted(
            members.last().0,
        ) + seq![':', ' '] + render(members.last().1, ind)
    }
}

/// The lower-case hexadecimal digit for a value below sixteen.
fn hex_digit_exec(d: u32) -> (c: char)
    requires
        d < 16,
    ensures
        c == hex_digit(d),
{
    if d == 0 { '0' }
    else if d == 1 { '1' }
    else if d == 2 { '2' }
    else if d == 3 { '3' }
    else if d == 4 { '4' }
    else if d == 5 { '5' }
    else if d == 6 { '6' }
    else if d == 7 { '7' }
    else if d == 8 { '8' }
    else if d == 9 { '9' }
    else if d == 10 { 'a' }
    else if d == 11 { 'b' }
    else if d == 12 { 'c' }
    else if d == 13 { 'd' }
    else if d == 14 { 'e' }
    else { 'f' }
}

/// Append a copy of the characters of `src` to `out`.
fn push_chars(src: &Vec<char>, out: &mut Vec<char>)
    ensures
        final(out)@ == old(out)@ + src@,
{
    let n = src.len();
    let mut i: usize = 0;
    while i < n
        invariant
            n == src@.len(),
            0 <= i <= n,
            out@ == old(out)@ + src@.subrange(0, i as int),
        decreases n - i,
    {
        out.push(src[i]);
        assert(out@ =~= old(out)@ + src@.subrange(0, i + 1 as int));
        i = i + 1;
    }
    assert(out@ =~= old(out)@ + src@);
}

/// Append a quoted, escaped string to `out`.
fn write_quoted(s: &str, out: &mut Vec<char>)
    ensures
        final(out)@ == old(out)@ + quoted(s@),
{
    out.push('"');
    let n = s.unicode_len();
    let mut i: usize = 0;
    while i < n
        invariant
            n == s@.len(),
            0 <= i <= n,
            out@ == old(out)@ + seq!['"'] + esc_str(s@.subrange(0, i as int)),
        decreases n - i,
    {
        let c = s.get_char(i);
        let v: u32 = c as u32;
        if c == '"' {
            out.push('\\');
            out.push('"');
        } else if c == '\\' {
            out.push('\\');
            out.push('\\');
        } else if c == '\n' {
            out.push('\\');
            out.push('n');
        } else if c == '\t' {
            out.push('\\');
            out.push('t');
        } else if c == '\r' {
            out.push('\\');
            out.push('r');
        } else if v < 32 {
            out.push('\\');
            out.push('u');
            out.push('0');
            out.push('0');
            out.push(hex_digit_exec(v / 16));
            out.push(hex_digit_exec(v % 16));
        } else {
            out.push(c);
        }
        proof {
            let pre = s@.subrange(0, i as int);
            assert(s@.subrange(0, i + 1 as int).drop_last() =~= pre);
            assert(s@.subrange(0, i + 1 as int).last() == s@[i as int]);
            assert(esc_str(s@.subrange(0, i + 1 as int)) == esc_str(pre) + esc_char(s@[i as int]));
            assert(out@ =~= old(out)@ + seq!['"'] + esc_str(s@.subrange(0, i + 1 as int)));
        }
        i = i + 1;
    }
    out.push('"');
    proof {
        assert(s@.subrange(0, n as int) =~= s@);
        assert(out@ =~= old(out)@ + quoted(s@));
    }
}

/// Append the rendering of a value to `out`.  The indent prefix is carried
/// as the characters in `pad`, four spaces per level; it is restored on
/// return.
#[verifier::spinoff_prover]
fn write_value(v: &JsonValue, pad: &mut Vec<char>, out: &mut Vec<char>, Ghost(ind): Ghost<nat>)
    requires
        old(pad)@ == indent_sp(ind),
    ensures
        final(pad)@ == old(pad)@,
        final(out)@ == old(out)@ + render(v@, ind),
    decreases v,
{
    match v {
        JsonValue::Null => {
            out.push('n');
            out.push('u');
            out.push('l');
            out.push('l');
            assert(out@ =~= old(out)@ + render(v@, ind));
        },
        JsonValue::Bool(b) => {
            if *b {
                out.push('t');
                out.push('r');
                out.push('u');
                out.push('e');
            } else {
                out.push('f');
                out.push('a');
                out.push('l');
                out.push('s');
                out.push('e');
            }
            assert(out@ =~= old(out)@ + render(v@, ind));
        },
        JsonValue::Num(n) => {
            push_dec_digits(*n, out);
        },
        JsonValue::Str(s) => {
            write_quoted(s.as_str(), out);
        },
        JsonValue::Arr(items) => {
            proof {
                assert(v@ == JsonModel::Arr(arr_model(items@)));
            }
            write_arr(items, pad, out, Ghost(ind));
        },
        JsonValue::Obj(members) => {
            proof {
                assert(v@ == JsonModel::Obj(obj_model(members@)));
            }
            write_obj(members, pad, out, Ghost(ind));
        },

    }
}


/// Append the rendering of an array to `out`.
#[verifier::loop_isolation(false)]
#[verifier::rlimit(100)]
#[verifier::spinoff_prover]
fn write_arr(items: &Vec<JsonValue>, pad: &mut Vec<char>, out: &mut Vec<char>, Ghost(ind): Ghost<
    nat,
>)
    requires
        old(pad)@ == indent_sp(ind),
    ensures
        final(pad)@ == old(pad)@,
        final(out)@ == old(out)@ + render(JsonModel::Arr(arr_model(items@)), ind),
    decreases items,
{
    let ghost m = arr_model(items@);
    proof {
        lemma_arr_model(items@);
    }
    let n = items.len();
    if n == 0 {
        out.push('[');
        out.push(']');
        assert(out@ =~= old(out)@ + render(JsonModel::Arr(m), ind));
    } else {
        out.push('[');
        pad.push(' ');
        pad.push(' ');
        pad.push(' ');
        pad.push(' ');
        proof {
            assert(pad@ =~= indent_sp(ind + 1));
        }
        let mut i: usize = 0;
        while i < n
            invariant
                0 <= i <= n,
                pad@ == indent_sp(ind + 1),
                out@ == old(out)@ + seq!['['] + render_items(m.subrange(0, i as int), ind + 1),
            decreases n - i,
        {
            if i > 0 {
                out.push(',');
            }
            out.push('\n');
            push_chars(pad, out);
            write_value(&items[i], pad, out, Ghost(ind + 1));
            proof {
                let pre = m.subrange(0, i as int);
                let cur = m.subrange(0, i + 1 as int);
                assert(cur.drop_last() =~= pre);
                assert(cur.last() == m[i as int]);
                assert(m[i as int] == items@[i as int]@);
                if i == 0 {
                    assert(render_items(cur, ind + 1) == seq!['\n'] + indent_sp(ind + 1) + render(
                        cur.last(),
                        ind + 1,
                    ));
                } else {
                    assert(render_items(cur, ind + 1) == render_items(pre, ind + 1) + seq![
                        ',',
                        '\n',
                    ] + indent_sp(ind + 1) + render(cur.last(), ind + 1));
                }
                assert(out@ =~= old(out)@ + seq!['['] + render_items(cur, ind + 1));
            }
            i = i + 1;
        }
        pad.pop();
        pad.pop();
        pad.pop();
        pad.pop();
        proof {
            assert(pad@ =~= indent_sp(ind));
        }
        out.push('\n');
        push_chars(pad, out);
        out.push(']');
        proof {
            assert(m.subrange(0, n as int) =~= m);
            assert(out@ =~= old(out)@ + render(JsonModel::Arr(m), ind));
        }
    }
}

/// Append the rendering of an object to `out`.
#[verifier::loop_isolation(false)]
#[verifier::rlimit(100)]
#[verifier::spinoff_prover]
fn write_obj(
    members: &Vec<(String, JsonValue)>,
    pad: &mut Vec<char>,
    out: &mut Vec<char>,
    Ghost(ind): Ghost<nat>,
)
    requires
        old(pad)@ == indent_sp(ind),
    ensures
        final(pad)@ == old(pad)@,
        final(out)@ == old(out)@ + render(JsonModel::Obj(obj_model(members@)), ind),
    decreases members,
{
    let ghost m = obj_model(members@);
    proof {
        lemma_obj_model(members@);
    }
    let n = members.len();
    if n == 0 {
        out.push('{');
        out.push('}');
        assert(out@ =~= old(out)@ + render(JsonModel::Obj(m), ind));
    } else {
        out.push('{');
        pad.push(' ');
        pad.push(' ');
        pad.push(' ');
        pad.push(' ');
        proof {
            assert(pad@ =~= indent_sp(ind + 1));
        }
        let mut i: usize = 0;
        while i < n
            invariant
                0 <= i <= n,
                pad@ == indent_sp(ind + 1),
                out@ == old(out)@ + seq!['{'] + render_members(m.subrange(0, i as int), ind + 1),
            decreases n - i,
        {
            if i > 0 {
                out.push(',');
            }
            out.push('\n');
            push_chars(pad, out);
            write_quoted(members[i].0.as_str(), out);
            out.push(':');
            out.push(' ');
            write_value(&members[i].1, pad, out, Ghost(ind + 1));
            proof {
                let pre = m.subrange(0, i as int);
                let cur = m.subrange(0, i + 1 as int);
                assert(cur.drop_last() =~= pre);
                assert(cur.last() == m[i as int]);
                assert(m[i as int] == (members@[i as int].0@, members@[i as int].1@));
                if i == 0 {
                    assert(render_members(cur, ind + 1) == seq!['\n'] + indent_sp(ind + 1)
                        + quoted(cur.last().0) + seq![':', ' '] + render(cur.last().1, ind + 1));
                } else {
                    assert(render_members(cur, ind + 1) == render_members(pre, ind + 1) + seq![
                        ',',
                        '\n',
                    ] + indent_sp(ind + 1) + quoted(cur.last().0) + seq![':', ' '] + render(
                        cur.last().1,
                        ind + 1,
                    ));
                }
                assert(out@ =~= old(out)@ + seq!['{'] + render_members(cur, ind + 1));
            }
            i = i + 1;
        }
        pad.pop();
        pad.pop();
        pad.pop();
        pad.pop();
        proof {
            assert(pad@ =~= indent_sp(ind));
        }
        out.push('\n');
        push_chars(pad, out);
        out.push('}');
        proof {
            assert(m.subrange(0, n as int) =~= m);
            assert(out@ =~= old(out)@ + render(JsonModel::Obj(m), ind));
        }
    }
}

/// The pretty text of one value.
pub fn render_pretty(v: &JsonValue) -> (s: String)
    ensures
        s@ == render(v@, 0),
{
    let mut out: Vec<char> = Vec::new();
    let mut pad: Vec<char> = Vec::new();
    write_value(v, &mut pad, &mut out, Ghost(0));
    chars_to_string(&out)
}

/// The pretty text of a collection of values, as one array document.
pub fn render_array_pretty(items: &Vec<JsonValue>) -> (s: String)
    ensures
        s@ == render(JsonModel::Arr(arr_model(items@)), 0),
{
    let mut out: Vec<char> = Vec::new();
    let mut pad: Vec<char> = Vec::new();
    proof {
        assert(pad@ =~= indent_sp(0));
    }
    write_arr(items, &mut pad, &mut out, Ghost(0));
    chars_to_string(&out)
}

} // verus!
