//! Reading structured values back from their pretty-printed text: the
//! inverse of rendering, used when a persisted audit log or object dump is
//! loaded again.

use vstd::prelude::*;
use vstd::arithmetic::power::pow;
use crate::json::{JsonValue, JsonModel};
use crate::render::{render, render_items, render_members, quoted, esc_str, indent_sp};

verus! {

/// The whitespace that may stand between tokens.
pub open spec fn ws_char(c: char) -> bool {
    c == ' ' || c == '\n' || c == '\t' || c == '\r'
}

/// A decimal digit.
pub open spec fn is_digit(c: char) -> bool {
    48 <= c as u32 <= 57
}

/// The value of a decimal digit.
pub open spec fn digit_val(c: char) -> nat {
    (c as u32 - 48) as nat
}

/// The first position at or after `i` that does not hold whitespace.
pub open spec fn skip_ws(s: Seq<char>, i: int) -> int
    decreases s.len() - i,
{
    if 0 <= i < s.len() && ws_char(s[i]) {
        skip_ws(s, i + 1)
    } else {
        i
    }
}

/// Skipping whitespace stays inside the text.
pub proof fn lemma_skip_ws_bounds(s: Seq<char>, i: int)
    requires
        0 <= i <= s.len(),
    ensures
        i <= skip_ws(s, i) <= s.len(),
        skip_ws(s, i) < s.len() ==> !ws_char(s[skip_ws(s, i)]),
    decreases s.len() - i,
{
    if i < s.len() && ws_char(s[i]) {
        lemma_skip_ws_bounds(s, i + 1);
    }
}

/// The number read by taking decimal digits from `i` on, most significant
/// first, onto an accumulator; and the position after the last digit.
pub open spec fn sp_digits(s: Seq<char>, i: int, acc: nat) -> (nat, int)
    decreases s.len() - i,
{
    if 0 <= i < s.len() && is_digit(s[i]) {
        sp_digits(s, i + 1, acc * 10 + digit_val(s[i]))
    } else {
        (acc, i)
    }
}

/// A number read from the text: its digits, when they fit the numeric
/// type.
pub open spec fn sp_number(s: Seq<char>, i: int) -> Option<(JsonModel, int)> {
    if 0 <= i < s.len() && is_digit(s[i]) {
        let (v, e) = sp_digits(s, i, 0);
        if v <= u64::MAX {
            Some((JsonModel::Num(v as u64), e))
        } else {
            None
        }
    } else {
        None
    }
}

/// The control character with the given code.
pub open spec fn ctrl_char(v: nat) -> char {
    if v == 0 { '\u{0}' }
    else if v == 1 { '\u{1}' }
    else if v == 2 { '\u{2}' }
    else if v == 3 { '\u{3}' }
    else if v == 4 { '\u{4}' }
    else if v == 5 { '\u{5}' }
    else if v == 6 { '\u{6}' }
    else if v == 7 { '\u{7}' }
    else if v == 8 { '\u{8}' }
    else if v == 9 { '\t' }
    else if v == 10 { '\n' }
    else if v == 11 { '\u{b}' }
    else if v == 12 { '\u{c}' }
    else if v == 13 { '\r' }
    else if v == 14 { '\u{e}' }
    else if v == 15 { '\u{f}' }
    else if v == 16 { '\u{10}' }
    else if v == 17 { '\u{11}' }
    else if v == 18 { '\u{12}' }
    else if v == 19 { '\u{13}' }
    else if v == 20 { '\u{14}' }
    else if v == 21 { '\u{15}' }
    else if v == 22 { '\u{16}' }
    else if v == 23 { '\u{17}' }
    else if v == 24 { '\u{18}' }
    else if v == 25 { '\u{19}' }
    else if v == 26 { '\u{1a}' }
    else if v == 27 { '\u{1b}' }
    else if v == 28 { '\u{1c}' }
    else if v == 29 { '\u{1d}' }
    else if v == 30 { '\u{1e}' }
    else { '\u{1f}' }
}

/// The value of a lower-case hexadecimal digit, or 16 where it is none.
pub open spec fn hex_val(c: char) -> nat {
    if 48 <= c as u32 <= 57 {
        (c as u32 - 48) as nat
    } else if 97 <= c as u32 <= 102 {
        (c as u32 - 87) as nat
    } else {
        16
    }
}

/// The body of a quoted string read from `i` (just after the opening
/// quote) to its closing quote: characters stand for themselves, a
/// backslash escapes the quote, the backslash, the common control
/// characters, and — as `u00` and two hexadecimal digits — any other
/// control character.
pub open spec fn sp_string(s: Seq<char>, i: int) -> Option<(Seq<char>, int)>
    decreases s.len() - i,
{
    if !(0 <= i < s.len()) {
        None
    } else if s[i] == '"' {
        Some((Seq::empty(), i + 1))
    } else if s[i] == '\\' {
        if i + 2 > s.len() {
            None
        } else {
            let c = s[i + 1];
            if c == '"' || c == '\\' {
                match sp_string(s, i + 2) {
                    Some((rest, e)) => Some((seq![c] + rest, e)),
                    None => None,
                }
            } else if c == 'n' {
                match sp_string(s, i + 2) {
                    Some((rest, e)) => Some((seq!['\n'] + rest, e)),
                    None => None,
                }
            } else if c == 't' {
                match sp_string(s, i + 2) {
                    Some((rest, e)) => Some((seq!['\t'] + rest, e)),
                    None => None,
                }
            } else if c == 'r' {
                match sp_string(s, i + 2) {
                    Some((rest, e)) => Some((seq!['\r'] + rest, e)),
                    None => None,
                }
            } else if c == 'u' {
                if i + 6 > s.len() {
                    None
                } else if s[i + 2] == '0' && s[i + 3] == '0' && hex_val(s[i + 4]) < 16 && hex_val(
                    s[i + 5],
                ) < 16 && hex_val(s[i + 4]) * 16 + hex_val(s[i + 5]) < 32 {
                    match sp_string(s, i + 6) {
                        Some((rest, e)) => Some(
                            (seq![ctrl_char(hex_val(s[i + 4]) * 16 + hex_val(s[i + 5]))] + rest, e),
                        ),
                        None => None,
                    }
                } else {
                    None
                }
            } else {
                None
            }
        }
    } else {
        match sp_string(s, i + 1) {
            Some((rest, e)) => Some((seq![s[i]] + rest, e)),
            None => None,
        }
    }
}

/// A value read from `i` on, leading whitespace skipped.
pub open spec fn sp_value(s: Seq<char>, i: int) -> Option<(JsonModel, int)>
    decreases s.len() - i, 0int,
{
    let j = skip_ws(s, i);
    if !(i <= j < s.len()) {
        None
    } else {
        let c = s[j];
        if c == 'n' {
            if j + 4 <= s.len() && s[j + 1] == 'u' && s[j + 2] == 'l' && s[j + 3] == 'l' {
                Some((JsonModel::Null, j + 4))
            } else {
                None
            }
        } else if c == 't' {
            if j + 4 <= s.len() && s[j + 1] == 'r' && s[j + 2] == 'u' && s[j + 3] == 'e' {
                Some((JsonModel::Bool(true), j + 4))
            } else {
                None
            }
        } else if c == 'f' {
            if j + 5 <= s.len() && s[j + 1] == 'a' && s[j + 2] == 'l' && s[j + 3] == 's' && s[j + 4]
                == 'e' {
                Some((JsonModel::Bool(false), j + 5))
            } else {
                None
            }
        } else if c == '"' {
            match sp_string(s, j + 1) {
                Some((body, e)) => Some((JsonModel::Str(body), e)),
                None => None,
            }
        } else if is_digit(c) {
            sp_number(s, j)
        } else if c == '[' {
            let k = skip_ws(s, j + 1);
            if j + 1 <= k < s.len() && s[k] == ']' {
                Some((JsonModel::Arr(Seq::empty()), k + 1))
            } else {
                match sp_items(s, j + 1) {
                    Some((items, e)) => Some((JsonModel::Arr(items), e)),
                    None => None,
                }
            }
        } else if c == '{' {
            let k = skip_ws(s, j + 1);
            if j + 1 <= k < s.len() && s[k] == '}' {
                Some((JsonModel::Obj(Seq::empty()), k + 1))
            } else {
                match sp_members(s, j + 1) {
                    Some((members, e)) => Some((JsonModel::Obj(members), e)),
                    None => None,
                }
            }
        } else {
            None
        }
    }
}

/// The elements of a non-empty array read from `i` on: values separated by
/// commas, closed by a bracket.
pub open spec fn sp_items(s: Seq<char>, i: int) -> Option<(Seq<JsonModel>, int)>
    decreases s.len() - i, 1int,
{
    match sp_value(s, i) {
        Some((v, j)) => {
            let k = skip_ws(s, j);
            if !(i < j && j <= k) {
                None
            } else if k < s.len() && s[k] == ',' {
                match sp_items(s, k + 1) {
                    Some((rest, e)) => Some((seq![v] + rest, e)),
                    None => None,
                }
            } else if k < s.len() && s[k] == ']' {
                Some((seq![v], k + 1))
            } else {
                None
            }
        },
        None => None,
    }
}

/// The members of a non-empty object read from `i` on: quoted keys, each
/// followed by a colon and a value, separated by commas, closed by a
/// brace.
pub open spec fn sp_members(s: Seq<char>, i: int) -> Option<(Seq<(Seq<char>, JsonModel)>, int)>
    decreases s.len() - i, 1int,
{
    let j = skip_ws(s, i);
    if !(i <= j && j < s.len() && s[j] == '"') {
        None
    } else {
        match sp_string(s, j + 1) {
            Some((key, e1)) => {
                let c = skip_ws(s, e1);
                if !(j < e1 && e1 <= c && c < s.len() && s[c] == ':') {
                    None
                } else {
                    match sp_value(s, c + 1) {
                        Some((v, e2)) => {
                            let k = skip_ws(s, e2);
                            if !(c < e2 && e2 <= k) {
                                None
                            } else if k < s.len() && s[k] == ',' {
                                match sp_members(s, k + 1) {
                                    Some((rest, e)) => Some((seq![(key, v)] + rest, e)),
                                    None => None,
                                }
                            } else if k < s.len() && s[k] == '}' {
                                Some((seq![(key, v)], k + 1))
                            } else {
                                None
                            }
                        },
                        None => None,
                    }
                }
            },
            None => None,
        }
    }
}

/// Skipping whitespace passes over a run of whitespace and stops at the
/// first position that holds none.
proof fn lemma_skip_ws_over(s: Seq<char>, i: int, k: int)
    requires
        0 <= i <= k <= s.len(),
        forall|j: int| i <= j < k ==> ws_char(s[j]),
        k < s.len() ==> !ws_char(s[k]),
    ensures
        skip_ws(s, i) == k,
    decreases k - i,
{
    if i < k {
        lemma_skip_ws_over(s, i + 1, k);
    }
}

/// The number that a digit string denotes, most significant digit first.
pub open spec fn val_digits(d: Seq<char>) -> nat
    decreases d.len(),
{
    if d.len() == 0 {
        0
    } else {
        val_digits(d.drop_last()) * 10 + digit_val(d.last())
    }
}

/// The decimal rendering of a number denotes it, in digits throughout.
proof fn lemma_dec_digits_val(n: u64)
    ensures
        val_digits(crate::text::dec_digits(n)) == n,
        crate::text::dec_digits(n).len() >= 1,
        forall|j: int| 0 <= j < crate::text::dec_digits(n).len() ==> is_digit(
            #[trigger] crate::text::dec_digits(n)[j],
        ),
    decreases n,
{
    let d = crate::text::dec_digits(n);
    if n < 10 {
        assert(d =~= seq![crate::text::digit_char(n)]);
        assert(d.drop_last() =~= Seq::<char>::empty());
        assert(val_digits(d.drop_last()) == 0);
        assert(d.last() == crate::text::digit_char(n));
        assert(val_digits(d) == val_digits(d.drop_last()) * 10 + digit_val(d.last()));
        assert(digit_val(crate::text::digit_char(n)) == n);
        assert(val_digits(d) == digit_val(crate::text::digit_char(n)));
    } else {
        lemma_dec_digits_val(n / 10);
        let p = crate::text::dec_digits(n / 10);
        assert(d == p.push(crate::text::digit_char(n % 10)));
        assert(d.drop_last() =~= p);
        assert(d.last() == crate::text::digit_char(n % 10));
        assert(val_digits(d) == (n / 10) * 10 + n % 10);
        assert forall|j: int| 0 <= j < d.len() implies is_digit(#[trigger] d[j]) by {
            if j < p.len() {
                assert(d[j] == p[j]);
            }
        }
    }
}

/// A digit string decomposes from the front.
proof fn lemma_val_digits_first(d: Seq<char>)
    requires
        d.len() > 0,
    ensures
        val_digits(d) == digit_val(d[0]) * pow(10, (d.len() - 1) as nat) + val_digits(
            d.drop_first(),
        ),
    decreases d.len(),
{
    if d.len() == 1 {
        assert(d.drop_last() =~= Seq::<char>::empty());
        assert(d.drop_first() =~= Seq::<char>::empty());
        assert(pow(10, 0) == 1) by {
            vstd::arithmetic::power::lemma_pow0(10);
        }
        assert(d.last() == d[0]);
    } else {
        let q = d.drop_last();
        lemma_val_digits_first(q);
        assert(q[0] == d[0]);
        assert(q.drop_first() =~= d.drop_first().drop_last());
        let k = (d.len() - 2) as nat;
        assert(pow(10, k + 1) == 10 * pow(10, k)) by {
            vstd::arithmetic::power::lemma_pow1(10);
            vstd::arithmetic::power::lemma_pow_adds(10, 1, k);
        }
        assert(d.drop_first().last() == d.last());
        assert(val_digits(d.drop_first()) == val_digits(d.drop_first().drop_last()) * 10
            + digit_val(d.drop_first().last()));
        assert(val_digits(d) == val_digits(q) * 10 + digit_val(d.last()));
        assert(val_digits(q) * 10 == (digit_val(d[0]) * pow(10, k) + val_digits(q.drop_first()))
            * 10);
        assert((digit_val(d[0]) * pow(10, k) + val_digits(q.drop_first())) * 10 == digit_val(d[0])
            * (10 * pow(10, k)) + val_digits(q.drop_first()) * 10) by (nonlinear_arith);
    }
}

/// Reading a digit run accumulates its value.
proof fn lemma_sp_digits_run(s: Seq<char>, i: int, d: Seq<char>, acc: nat)
    requires
        0 <= i,
        i + d.len() <= s.len(),
        s.subrange(i, i + d.len()) == d,
        forall|j: int| 0 <= j < d.len() ==> is_digit(#[trigger] d[j]),
        i + d.len() == s.len() || !is_digit(s[i + d.len()]),
    ensures
        sp_digits(s, i, acc) == (
            (acc * pow(10, d.len() as nat) + val_digits(d)) as nat,
            i + d.len(),
        ),
    decreases d.len(),
{
    if d.len() == 0 {
        assert(pow(10, 0) == 1) by {
            vstd::arithmetic::power::lemma_pow0(10);
        }
        if i < s.len() {
            assert(!is_digit(s[i]));
        }
    } else {
        assert(s[i] == d[0]);
        assert(is_digit(s[i]));
        let d2 = d.drop_first();
        assert(s.subrange(i + 1, i + 1 + d2.len()) =~= d2);
        assert forall|j: int| 0 <= j < d2.len() implies is_digit(#[trigger] d2[j]) by {
            assert(d2[j] == d[j + 1]);
        }
        let acc2 = acc * 10 + digit_val(d[0]);
        lemma_sp_digits_run(s, i + 1, d2, acc2);
        lemma_val_digits_first(d);
        let k = (d.len() - 1) as nat;
        assert(pow(10, k + 1) == 10 * pow(10, k)) by {
            vstd::arithmetic::power::lemma_pow1(10);
            vstd::arithmetic::power::lemma_pow_adds(10, 1, k);
        }
        assert((acc * 10 + digit_val(d[0])) * pow(10, k) == acc * (10 * pow(10, k)) + digit_val(
            d[0],
        ) * pow(10, k)) by (nonlinear_arith);
        assert(acc2 * pow(10, k) == acc * (10 * pow(10, k)) + digit_val(d[0]) * pow(10, k));
        assert(sp_digits(s, i, acc) == sp_digits(s, i + 1, acc2));
    }
}

/// An escaped string decomposes from the front.
proof fn lemma_esc_first(b: Seq<char>)
    requires
        b.len() > 0,
    ensures
        esc_str(b) == crate::render::esc_char(b[0]) + esc_str(
            b.drop_first(),
        ),
    decreases b.len(),
{
    if b.len() == 1 {
        assert(b.drop_last() =~= Seq::<char>::empty());
        assert(b.drop_first() =~= Seq::<char>::empty());
        assert(esc_str(Seq::<char>::empty()) =~= Seq::<char>::empty());
        assert(b.last() == b[0]);
        assert(esc_str(b) =~= crate::render::esc_char(b[0])
            + esc_str(b.drop_first()));
    } else {
        let q = b.drop_last();
        lemma_esc_first(q);
        assert(q[0] == b[0]);
        assert(q.drop_first() =~= b.drop_first().drop_last());
        assert(b.drop_first().last() == b.last());
        assert(esc_str(b.drop_first()) == esc_str(
            b.drop_first().drop_last(),
        ) + crate::render::esc_char(b.drop_first().last()));
        assert(esc_str(b) =~= crate::render::esc_char(b[0])
            + esc_str(b.drop_first()));
    }
}

/// A control character is recovered from its code.
proof fn lemma_ctrl_char_code(c: char)
    requires
        (c as u32) < 32,
    ensures
        ctrl_char((c as u32) as nat) == c,
{
}

/// Reading an escaped, quote-closed string recovers its characters.
#[verifier::rlimit(100)]
#[verifier::spinoff_prover]
proof fn lemma_rt_string(s: Seq<char>, i: int, b: Seq<char>)
    requires
        0 <= i,
        i + esc_str(b).len() + 1 <= s.len(),
        s.subrange(i, i + esc_str(b).len()) == esc_str(b),
        s[i + esc_str(b).len()] == '"',
    ensures
        sp_string(s, i) == Some((b, i + esc_str(b).len() + 1)),
    decreases b.len(),
{
    let e = esc_str(b);
    if b.len() == 0 {
        assert(e =~= Seq::<char>::empty());
        assert(s[i] == '"');
    } else {
        let c0 = b[0];
        let e0 = crate::render::esc_char(c0);
        lemma_esc_first(b);
        let b2 = b.drop_first();
        let e2 = esc_str(b2);
        assert(e == e0 + e2);
        assert forall|j: int| 0 <= j < e0.len() implies s[i + j] == e0[j] by {
            assert(e[j] == e0[j]);
            assert(s[i + j] == e[j]);
        }
        assert(s.subrange(i + e0.len(), i + e0.len() + e2.len()) =~= e2) by {
            assert forall|j: int| 0 <= j < e2.len() implies s.subrange(
                i + e0.len(),
                i + e0.len() + e2.len(),
            )[j] == e2[j] by {
                assert(e[e0.len() + j] == e2[j]);
                assert(s[i + e0.len() + j] == e[e0.len() + j]);
            }
        }
        lemma_rt_string(s, i + e0.len(), b2);
        let v = c0 as u32;
        if c0 == '"' || c0 == '\\' {
            assert(e0 =~= seq!['\\', c0]);
            assert(s[i] == '\\' && s[i + 1] == c0);
            assert(seq![c0] + b2 =~= b);
        } else if c0 == '\n' {
            assert(s[i] == '\\' && s[i + 1] == 'n');
            assert(seq!['\n'] + b2 =~= b);
        } else if c0 == '\t' {
            assert(s[i] == '\\' && s[i + 1] == 't');
            assert(seq!['\t'] + b2 =~= b);
        } else if c0 == '\r' {
            assert(s[i] == '\\' && s[i + 1] == 'r');
            assert(seq!['\r'] + b2 =~= b);
        } else if v < 32 {
            assert(e0 =~= seq!['\\', 'u', '0', '0', crate::render::hex_digit(v / 16),
                crate::render::hex_digit(v % 16)]);
            assert(s[i] == '\\' && s[i + 1] == 'u' && s[i + 2] == '0' && s[i + 3] == '0');
            assert(s[i + 4] == crate::render::hex_digit(v / 16));
            assert(s[i + 5] == crate::render::hex_digit(v % 16));
            assert(hex_val(crate::render::hex_digit(v / 16)) == v / 16);
            assert(hex_val(crate::render::hex_digit(v % 16)) == v % 16);
            assert(hex_val(s[i + 4]) * 16 + hex_val(s[i + 5]) == v);
            lemma_ctrl_char_code(c0);
            assert(seq![ctrl_char(v as nat)] + b2 =~= b);
        } else {
            assert(e0 =~= seq![c0]);
            assert(s[i] == c0);
            assert(!(s[i] == '"') && !(s[i] == '\\'));
            assert(seq![s[i]] + b2 =~= b);
        }
    }
}

/// An indent prefix is four spaces per level.
proof fn lemma_indent_ws(ind: nat)
    ensures
        indent_sp(ind).len() == 4 * ind,
        forall|j: int| 0 <= j < 4 * ind ==> indent_sp(ind)[j] == ' ',
    decreases ind,
{
    if ind > 0 {
        lemma_indent_ws((ind - 1) as nat);
    }
}

/// The first character of a rendered value says which kind of value it is;
/// it is never whitespace and never a closer.
proof fn lemma_render_first(m: JsonModel, ind: nat)
    ensures
        render(m, ind).len() >= 1,
        !ws_char(render(m, ind)[0]),
        render(m, ind)[0] != ']',
        render(m, ind)[0] != '}',
        match m {
            JsonModel::Null => render(m, ind)[0] == 'n',
            JsonModel::Bool(b) => render(m, ind)[0] == (if b { 't' } else { 'f' }),
            JsonModel::Num(_) => is_digit(render(m, ind)[0]),
            JsonModel::Str(_) => render(m, ind)[0] == '"',
            JsonModel::Arr(_) => render(m, ind)[0] == '[',
            JsonModel::Obj(_) => render(m, ind)[0] == '{',
        },
{
    match m {
        JsonModel::Num(n) => {
            lemma_dec_digits_val(n);
        },
        _ => {},
    }
}

/// A comma-and-newline separator regrouped: the comma closes the element
/// before it, the newline opens the line of the one after it.
proof fn lemma_comma_regroup(x: Seq<char>, p: Seq<char>, r: Seq<char>)
    ensures
        x + seq![',', '\n'] + p + r == x + seq![','] + (seq!['\n'] + p + r),
{
    assert(x + seq![',', '\n'] + p + r =~= x + seq![','] + (seq!['\n'] + p + r));
}

/// A non-empty item list renders with its first element on its own line,
/// followed, when more elements come, by a comma and the rest.
#[verifier::rlimit(100)]
#[verifier::spinoff_prover]
proof fn lemma_render_items_split(items: Seq<JsonModel>, ind: nat)
    requires
        items.len() >= 1,
    ensures
        items.len() == 1 ==> render_items(items, ind) == seq!['\n']
            + indent_sp(ind) + render(items[0], ind),
        items.len() >= 2 ==> render_items(items, ind) == seq!['\n']
            + indent_sp(ind) + render(items[0], ind) + seq![',']
            + render_items(items.drop_first(), ind),
    decreases items.len(),
{
    if items.len() == 1 {
        assert(items.last() == items[0]);
    } else if items.len() == 2 {
        let q = items.drop_last();
        assert(q.len() == 1);
        assert(q[0] == items[0]);
        assert(q.last() == items[0]);
        assert(items.drop_first().len() == 1);
        assert(items.drop_first()[0] == items[1]);
        assert(items.drop_first().last() == items[1]);
        assert(items.last() == items[1]);
        let pad = indent_sp(ind);
        let r0 = render(items[0], ind);
        let r1 = render(items[1], ind);
        assert(render_items(q, ind) == seq!['\n'] + pad + r0);
        assert(render_items(items, ind) == render_items(q, ind)
            + seq![',', '\n'] + pad + r1);
        assert(render_items(items.drop_first(), ind) == seq!['\n'] + pad + r1);
        lemma_comma_regroup(seq!['\n'] + pad + r0, pad, r1);
        assert(render_items(items, ind) == seq!['\n'] + pad + r0 + seq![','] + (
        seq!['\n'] + pad + r1));
    } else {
        let q = items.drop_last();
        lemma_render_items_split(q, ind);
        assert(q[0] == items[0]);
        assert(q.drop_first() =~= items.drop_first().drop_last());
        assert(items.drop_first().last() == items.last());
        assert(items.drop_first().len() >= 2);
        let pad = indent_sp(ind);
        let head = seq!['\n'] + pad + render(items[0], ind) + seq![','];
        let mid = render_items(q.drop_first(), ind);
        let tail = seq![',', '\n'] + pad + render(items.last(), ind);
        assert(render_items(q, ind) =~= head + mid);
        assert(render_items(items, ind) == render_items(q, ind)
            + seq![',', '\n'] + pad + render(items.last(), ind));
        assert(render_items(items, ind) =~= (head + mid) + tail);
        assert(render_items(items.drop_first(), ind) == render_items(
            items.drop_first().drop_last(),
            ind,
        ) + seq![',', '\n'] + pad + render(items.drop_first().last(), ind));
        assert(render_items(items.drop_first(), ind) =~= mid + tail);
        assert((head + mid) + tail =~= head + (mid + tail));
        assert(render_items(items, ind) =~= seq!['\n'] + pad
            + render(items[0], ind) + seq![','] + (mid + tail));
    }
}

/// A non-empty member list renders with its first member on its own line,
/// followed, when more members come, by a comma and the rest.
#[verifier::rlimit(100)]
#[verifier::spinoff_prover]
proof fn lemma_render_members_split(members: Seq<(Seq<char>, JsonModel)>, ind: nat)
    requires
        members.len() >= 1,
    ensures
        members.len() == 1 ==> render_members(members, ind) == seq!['\n']
            + indent_sp(ind) + quoted(members[0].0) + seq![':', ' ']
            + render(members[0].1, ind),
        members.len() >= 2 ==> render_members(members, ind) == seq!['\n']
            + indent_sp(ind) + quoted(members[0].0) + seq![':', ' ']
            + render(members[0].1, ind) + seq![',']
            + render_members(members.drop_first(), ind),
    decreases members.len(),
{
    if members.len() == 1 {
        assert(members.last() == members[0]);
    } else if members.len() == 2 {
        let q = members.drop_last();
        assert(q.len() == 1);
        assert(q.last() == members[0]);
        assert(members.drop_first().len() == 1);
        assert(members.drop_first().last() == members[1]);
        assert(members.last() == members[1]);
        let pad = indent_sp(ind);
        let m0 = quoted(members[0].0) + seq![':', ' '] + render(
            members[0].1,
            ind,
        );
        let m1 = quoted(members[1].0) + seq![':', ' '] + render(
            members[1].1,
            ind,
        );
        assert(render_members(q, ind) =~= seq!['\n'] + pad + m0);
        assert(render_members(members, ind) =~= render_members(
            q,
            ind,
        ) + seq![',', '\n'] + pad + m1);
        assert(render_members(members.drop_first(), ind) =~= seq!['\n'] + pad + m1);
        lemma_comma_regroup(seq!['\n'] + pad + m0, pad, m1);
        assert(render_members(members, ind) == seq!['\n'] + pad + m0 + seq![','] + (
        seq!['\n'] + pad + m1));
        assert(seq!['\n'] + pad + m0 =~= seq!['\n'] + pad + quoted(members[0].0)
            + seq![':', ' '] + render(members[0].1, ind));
    } else {
        let q = members.drop_last();
        lemma_render_members_split(q, ind);
        assert(q[0] == members[0]);
        assert(q.drop_first() =~= members.drop_first().drop_last());
        assert(members.drop_first().last() == members.last());
        assert(members.drop_first().len() >= 2);
        let pad = indent_sp(ind);
        let head = seq!['\n'] + pad + quoted(members[0].0) + seq![':', ' ']
            + render(members[0].1, ind) + seq![','];
        let mid = render_members(q.drop_first(), ind);
        let tail = seq![',', '\n'] + pad + quoted(members.last().0) + seq![':', ' ']
            + render(members.last().1, ind);
        assert(render_members(q, ind) =~= head + mid);
        assert(render_members(members, ind) == render_members(q, ind)
            + seq![',', '\n'] + pad + quoted(members.last().0) + seq![':', ' ']
            + render(members.last().1, ind));
        assert(render_members(members, ind) =~= (head + mid) + tail);
        assert(render_members(members.drop_first(), ind)
            == render_members(members.drop_first().drop_last(), ind) + seq![
            ',',
            '\n',
        ] + pad + quoted(members.drop_first().last().0) + seq![':', ' ']
            + render(members.drop_first().last().1, ind));
        assert(render_members(members.drop_first(), ind) =~= mid + tail);
        assert((head + mid) + tail =~= head + (mid + tail));
        assert(render_members(members, ind) =~= seq!['\n'] + pad
            + quoted(members[0].0) + seq![':', ' '] + render(
            members[0].1,
            ind,
        ) + seq![','] + (mid + tail));
    }
}

/// Reading a rendered value back, after any run of whitespace, recovers
/// it.  `p` is where the rendered text stands; a rendered number must be
/// followed by the end of the text or by something that is not a digit.
#[verifier::rlimit(100)]
#[verifier::spinoff_prover]
proof fn lemma_rt_value(s: Seq<char>, i: int, p: int, m: JsonModel, ind: nat)
    requires
        0 <= i <= p,
        p + render(m, ind).len() <= s.len(),
        forall|j: int| i <= j < p ==> ws_char(s[j]),
        s.subrange(p, p + render(m, ind).len()) == render(m, ind),
        m is Num ==> (p + render(m, ind).len() == s.len() || !is_digit(
            s[p + render(m, ind).len()],
        )),
    ensures
        sp_value(s, i) == Some((m, p + render(m, ind).len())),
    decreases m,
{
    let r = render(m, ind);
    assert forall|j: int| 0 <= j < r.len() implies s[p + j] == r[j] by {
        assert(s.subrange(p, p + r.len())[j] == s[p + j]);
    }
    lemma_render_first(m, ind);
    lemma_skip_ws_over(s, i, p);
    match m {
        JsonModel::Null => {
            assert(r =~= seq!['n', 'u', 'l', 'l']);
        },
        JsonModel::Bool(b) => {
            if b {
                assert(r =~= seq!['t', 'r', 'u', 'e']);
            } else {
                assert(r =~= seq!['f', 'a', 'l', 's', 'e']);
            }
        },
        JsonModel::Num(n) => {
            lemma_dec_digits_val(n);
            assert(s.subrange(p, p + r.len()) == r);
            lemma_sp_digits_run(s, p, r, 0);
            assert(0 * pow(10, r.len() as nat) == 0) by (nonlinear_arith);
            assert(sp_digits(s, p, 0) == (n as nat, p + r.len()));
        },
        JsonModel::Str(b) => {
            let e = esc_str(b);
            assert(r == quoted(b));
            assert(r.len() == e.len() + 2);
            assert(s[p] == r[0] && r[0] == '"');
            assert(s.subrange(p + 1, p + 1 + e.len()) =~= e) by {
                assert forall|j: int| 0 <= j < e.len() implies s.subrange(
                    p + 1,
                    p + 1 + e.len(),
                )[j] == e[j] by {
                    assert(r[1 + j] == e[j]);
                    assert(s[p + 1 + j] == r[1 + j]);
                }
            }
            assert(s[p + 1 + e.len() as int] == r[1 + e.len() as int]);
            assert(r[1 + e.len() as int] == '"');
            lemma_rt_string(s, p + 1, b);
        },
        JsonModel::Arr(items) => {
            assert(s[p] == '[');
            if items.len() == 0 {
                assert(r =~= seq!['[', ']']);
                assert(s[p + 1] == ']');
                lemma_skip_ws_over(s, p + 1, p + 1);
                assert(items =~= Seq::<JsonModel>::empty());
            } else {
                let ri = render_items(items, ind + 1);
                let pad = indent_sp(ind);
                assert(r == seq!['['] + ri + seq!['\n'] + pad + seq![']']);
                assert forall|j: int| 0 <= j < ri.len() implies s[p + 1 + j] == ri[j] by {
                    assert(r[1 + j] == ri[j]);
                }
                assert(s.subrange(p + 1, p + 1 + ri.len()) =~= ri);
                lemma_indent_ws(ind);
                lemma_indent_ws(ind + 1);
                lemma_render_items_split(items, ind + 1);
                lemma_render_first(items[0], ind + 1);
                // where the first element starts
                let p0 = p + 1 + 1 + 4 * (ind + 1);
                assert forall|j: int| p + 1 <= j < p0 implies ws_char(s[j]) by {
                    if j == p + 1 {
                        assert(ri[0] == '\n');
                    } else {
                        assert(ri[j - (p + 1)] == indent_sp(ind + 1)[j - (p + 2)]);
                    }
                }
                assert(s[p0] == ri[1 + 4 * (ind as int + 1)]);
                assert(ri[1 + 4 * (ind as int + 1)] == render(items[0], ind + 1)[0]);
                assert(!ws_char(s[p0]) && s[p0] != ']');
                lemma_skip_ws_over(s, p + 1, p0);
                // the closer of the array
                let z = p + 1 + ri.len() + 1 + 4 * ind;
                assert(s[z] == r[1 + ri.len() as int + 1 + 4 * ind as int]);
                assert(r[1 + ri.len() as int + 1 + 4 * ind as int] == ']');
                assert forall|j: int| p + 1 + ri.len() <= j < z implies ws_char(s[j]) by {
                    if j == p + 1 + ri.len() {
                        assert(r[1 + ri.len() as int] == '\n');
                        assert(s[j] == r[1 + ri.len() as int]);
                    } else {
                        assert(r[j - p] == pad[j - (p + 2 + ri.len())]);
                        assert(s[j] == r[j - p]);
                    }
                }
                lemma_rt_items(s, p + 1, items, ind + 1, z);
                assert(z + 1 == p + r.len());
            }
        },
        JsonModel::Obj(members) => {
            assert(s[p] == '{');
            if members.len() == 0 {
                assert(r =~= seq!['{', '}']);
                assert(s[p + 1] == '}');
                lemma_skip_ws_over(s, p + 1, p + 1);
                assert(members =~= Seq::<(Seq<char>, JsonModel)>::empty());
            } else {
                let rm = render_members(members, ind + 1);
                let pad = indent_sp(ind);
                assert(r == seq!['{'] + rm + seq!['\n'] + pad + seq!['}']);
                assert forall|j: int| 0 <= j < rm.len() implies s[p + 1 + j] == rm[j] by {
                    assert(r[1 + j] == rm[j]);
                }
                assert(s.subrange(p + 1, p + 1 + rm.len()) =~= rm);
                lemma_indent_ws(ind);
                lemma_indent_ws(ind + 1);
                lemma_render_members_split(members, ind + 1);
                let p0 = p + 1 + 1 + 4 * (ind + 1);
                assert(s[p0] == rm[1 + 4 * (ind as int + 1)]);
                assert(rm[1 + 4 * (ind as int + 1)] == quoted(members[0].0)[0]);
                assert(s[p0] == '"');
                assert(s[p0] != '}');
                let z = p + 1 + rm.len() + 1 + 4 * ind;
                assert(s[z] == r[1 + rm.len() as int + 1 + 4 * ind as int]);
                assert(r[1 + rm.len() as int + 1 + 4 * ind as int] == '}');
                assert forall|j: int| p + 1 + rm.len() <= j < z implies ws_char(s[j]) by {
                    if j == p + 1 + rm.len() {
                        assert(r[1 + rm.len() as int] == '\n');
                        assert(s[j] == r[1 + rm.len() as int]);
                    } else {
                        assert(r[j - p] == pad[j - (p + 2 + rm.len())]);
                        assert(s[j] == r[j - p]);
                    }
                }
                // the bracket dispatch does not see a closer first
                assert forall|j: int| p + 1 <= j < p0 implies ws_char(s[j]) by {
                    if j == p + 1 {
                        assert(rm[0] == '\n');
                    } else {
                        assert(rm[j - (p + 1)] == indent_sp(ind + 1)[j - (p + 2)]);
                    }
                }
                lemma_skip_ws_over(s, p + 1, p0);
                lemma_rt_members(s, p + 1, members, ind + 1, z);
                assert(z + 1 == p + r.len());
            }
        },
    }
}

/// Reading rendered array elements back, up to their closing bracket at
/// `z`, recovers them.
#[verifier::rlimit(100)]
#[verifier::spinoff_prover]
proof fn lemma_rt_items(s: Seq<char>, a: int, items: Seq<JsonModel>, ind: nat, z: int)
    requires
        items.len() >= 1,
        0 <= a,
        a + render_items(items, ind).len() <= z < s.len(),
        s.subrange(a, a + render_items(items, ind).len()) == render_items(items, ind),
        forall|j: int| a + render_items(items, ind).len() <= j < z ==> ws_char(s[j]),
        s[z] == ']',
    ensures
        sp_items(s, a) == Some((items, z + 1)),
    decreases items,
{
    let ri = render_items(items, ind);
    assert forall|j: int| 0 <= j < ri.len() implies s[a + j] == ri[j] by {
        assert(s.subrange(a, a + ri.len())[j] == s[a + j]);
    }
    lemma_indent_ws(ind);
    lemma_render_items_split(items, ind);
    let r0 = render(items[0], ind);
    let p0 = a + 1 + 4 * ind;
    assert forall|j: int| a <= j < p0 implies ws_char(s[j]) by {
        if j == a {
            assert(ri[0] == '\n');
        } else {
            assert(ri[j - a] == indent_sp(ind)[j - (a + 1)]);
        }
    }
    assert forall|j: int| 0 <= j < r0.len() implies s[p0 + j] == r0[j] by {
        assert(ri[1 + 4 * ind as int + j] == r0[j]);
    }
    assert(s.subrange(p0, p0 + r0.len()) =~= r0);
    let j1 = p0 + r0.len();
    if items.len() == 1 {
        assert(ri.len() == 1 + 4 * ind + r0.len());
        assert(j1 == a + ri.len());
        lemma_rt_value(s, a, p0, items[0], ind);
        lemma_skip_ws_over(s, j1, z);
        assert(sp_value(s, a) == Some((items[0], j1)));
        assert(s[z] == ']');
        assert(seq![items[0]] =~= items);
    } else {
        let ri2 = render_items(items.drop_first(), ind);
        assert(ri == seq!['\n'] + indent_sp(ind) + r0 + seq![','] + ri2);
        assert(s[j1] == ri[1 + 4 * ind as int + r0.len() as int]);
        assert(ri[1 + 4 * ind as int + r0.len() as int] == ',');
        lemma_rt_value(s, a, p0, items[0], ind);
        lemma_skip_ws_over(s, j1, j1);
        assert(skip_ws(s, j1) == j1);
        assert(s[j1] == ',');
        let a2 = j1 + 1;
        assert forall|j: int| 0 <= j < ri2.len() implies s[a2 + j] == ri2[j] by {
            assert(ri[1 + 4 * ind as int + r0.len() as int + 1 + j] == ri2[j]);
        }
        assert(s.subrange(a2, a2 + ri2.len()) =~= ri2);
        assert(a2 + ri2.len() == a + ri.len());
        lemma_rt_items(s, a2, items.drop_first(), ind, z);
        assert(seq![items[0]] + items.drop_first() =~= items);
    }
}

/// Reading rendered object members back, up to their closing brace at
/// `z`, recovers them.
#[verifier::rlimit(100)]
#[verifier::spinoff_prover]
proof fn lemma_rt_members(s: Seq<char>, a: int, members: Seq<(Seq<char>, JsonModel)>, ind: nat, z: int)
    requires
        members.len() >= 1,
        0 <= a,
        a + render_members(members, ind).len() <= z < s.len(),
        s.subrange(a, a + render_members(members, ind).len()) == render_members(members, ind),
        forall|j: int| a + render_members(members, ind).len() <= j < z ==> ws_char(s[j]),
        s[z] == '}',
    ensures
        sp_members(s, a) == Some((members, z + 1)),
    decreases members,
{
    let rm = render_members(members, ind);
    assert forall|j: int| 0 <= j < rm.len() implies s[a + j] == rm[j] by {
        assert(s.subrange(a, a + rm.len())[j] == s[a + j]);
    }
    lemma_indent_ws(ind);
    lemma_render_members_split(members, ind);
    let key = members[0].0;
    let ek = esc_str(key);
    let qk = quoted(key);
    let rv = render(members[0].1, ind);
    let kv = qk + seq![':', ' '] + rv;
    let first = seq!['\n'] + indent_sp(ind) + qk + seq![':', ' '] + rv;
    assert(first =~= seq!['\n'] + indent_sp(ind) + kv);
    if members.len() == 1 {
        assert(rm == first);
    } else {
        assert(rm == first + seq![','] + render_members(members.drop_first(), ind));
    }
    let p0 = a + 1 + 4 * ind;
    assert forall|j: int| a <= j < p0 implies ws_char(s[j]) by {
        if j == a {
            assert(rm[0] == '\n');
        } else {
            assert(rm[j - a] == indent_sp(ind)[j - (a + 1)]);
        }
    }
    assert forall|j: int| 0 <= j < qk.len() + 2 + rv.len() implies s[p0 + j] == (qk + seq![
        ':',
        ' ',
    ] + rv)[j] by {
        assert(first[1 + 4 * ind as int + j] == (seq!['\n'] + indent_sp(ind) + kv)[1 + 4 * ind
            as int + j]);
        assert((seq!['\n'] + indent_sp(ind) + kv)[1 + 4 * ind as int + j] == kv[j]);
        if members.len() == 1 {
            assert(rm[1 + 4 * ind as int + j] == first[1 + 4 * ind as int + j]);
        } else {
            assert(rm[1 + 4 * ind as int + j] == (first + seq![','] + render_members(
                members.drop_first(),
                ind,
            ))[1 + 4 * ind as int + j]);
            assert((first + seq![','] + render_members(members.drop_first(), ind))[1 + 4 * ind
                as int + j] == first[1 + 4 * ind as int + j]);
        }
        assert(rm[1 + 4 * ind as int + j] == kv[j]);
    }
    assert(s[p0 + 0] == (qk + seq![':', ' '] + rv)[0]);
    assert((qk + seq![':', ' '] + rv)[0] == qk[0]);
    assert(qk[0] == '"');
    assert(s[p0] == '"');
    lemma_skip_ws_over(s, a, p0);
    // the key string
    assert forall|j: int| 0 <= j < ek.len() implies s[p0 + 1 + j] == ek[j] by {
        assert((qk + seq![':', ' '] + rv)[1 + j] == ek[j]);
        assert(s[p0 + 1 + j] == (qk + seq![':', ' '] + rv)[1 + j]);
    }
    assert(s.subrange(p0 + 1, p0 + 1 + ek.len()) =~= ek);
    assert(s[p0 + 1 + ek.len() as int] == (qk + seq![':', ' '] + rv)[1 + ek.len() as int]);
    assert((qk + seq![':', ' '] + rv)[1 + ek.len() as int] == '"');
    lemma_rt_string(s, p0 + 1, key);
    let e1 = p0 + 1 + ek.len() + 1;
    assert(sp_string(s, p0 + 1) == Some((key, e1)));
    assert(s[e1] == (qk + seq![':', ' '] + rv)[qk.len() as int]);
    assert((qk + seq![':', ' '] + rv)[qk.len() as int] == ':');
    lemma_skip_ws_over(s, e1, e1);
    // the member's value, one space later
    let pv = e1 + 2;
    assert(s[e1 + 1] == (qk + seq![':', ' '] + rv)[qk.len() as int + 1]);
    assert((qk + seq![':', ' '] + rv)[qk.len() as int + 1] == ' ');
    assert forall|j: int| 0 <= j < rv.len() implies s[pv + j] == rv[j] by {
        assert((qk + seq![':', ' '] + rv)[qk.len() as int + 2 + j] == rv[j]);
        assert(s[pv + j] == (qk + seq![':', ' '] + rv)[qk.len() as int + 2 + j]);
    }
    assert(s.subrange(pv, pv + rv.len()) =~= rv);
    let e2 = pv + rv.len();
    assert(e2 == a + 1 + 4 * ind + qk.len() + 2 + rv.len());
    assert(first.len() == 1 + 4 * ind + qk.len() + 2 + rv.len());
    if members.len() == 1 {
        assert(rm == first);
        assert(e2 == a + rm.len());
        lemma_rt_value(s, e1 + 1, pv, members[0].1, ind);
        lemma_skip_ws_over(s, e2, z);
        assert(s[z] == '}');
        assert(seq![members[0]] =~= members);
    } else {
        let rm2 = render_members(members.drop_first(), ind);
        assert(rm == first + seq![','] + rm2);
        assert(s[e2] == rm[first.len() as int]);
        assert(rm[first.len() as int] == ',');
        lemma_rt_value(s, e1 + 1, pv, members[0].1, ind);
        lemma_skip_ws_over(s, e2, e2);
        let a2 = e2 + 1;
        assert forall|j: int| 0 <= j < rm2.len() implies s[a2 + j] == rm2[j] by {
            assert(rm[first.len() as int + 1 + j] == rm2[j]);
        }
        assert(s.subrange(a2, a2 + rm2.len()) =~= rm2);
        assert(a2 + rm2.len() == a + rm.len());
        lemma_rt_members(s, a2, members.drop_first(), ind, z);
        assert(seq![members[0]] + members.drop_first() =~= members);
    }
}

/// Law: rendering a value and reading the text back yields the value
/// unchanged — a flushed audit log or object dump, loaded again, is
/// deep-equal to what was in memory when it was written.
pub proof fn lemma_round_trip(m: JsonModel)
    ensures
        sp_document(render(m, 0)) == Some(m),
{
    let s = render(m, 0);
    assert(s.subrange(0, s.len() as int) =~= s);
    lemma_rt_value(s, 0, 0, m, 0);
    lemma_skip_ws_over(s, s.len() as int, s.len() as int);
}


/// Reading digits consumes text and stays inside it.
proof fn lemma_sp_digits_advances(s: Seq<char>, i: int, acc: nat)
    requires
        0 <= i <= s.len(),
    ensures
        i <= sp_digits(s, i, acc).1 <= s.len(),
        0 <= i < s.len() && is_digit(s[i]) ==> i < sp_digits(s, i, acc).1,
    decreases s.len() - i,
{
    if 0 <= i < s.len() && is_digit(s[i]) {
        lemma_sp_digits_advances(s, i + 1, acc * 10 + digit_val(s[i]));
    }
}




/// The number a digit run reads is at least the accumulator it starts
/// from.
proof fn lemma_sp_digits_mono(s: Seq<char>, i: int, acc: nat)
    ensures
        sp_digits(s, i, acc).0 >= acc,
    decreases s.len() - i,
{
    if 0 <= i < s.len() && is_digit(s[i]) {
        lemma_sp_digits_mono(s, i + 1, acc * 10 + digit_val(s[i]));
    }
}

/// The first position at or after `i` that holds no whitespace.
fn skip_ws_exec(s: &Vec<char>, i: usize) -> (r: usize)
    requires
        i <= s@.len(),
    ensures
        r as int == skip_ws(s@, i as int),
        i <= r <= s@.len(),
    decreases s@.len() - i,
{
    let n = s.len();
    let mut k = i;
    while k < n && (s[k] == ' ' || s[k] == '\n' || s[k] == '\t' || s[k] == '\r')
        invariant
            i <= k <= n,
            n == s@.len(),
            skip_ws(s@, i as int) == skip_ws(s@, k as int),
        decreases n - k,
    {
        k = k + 1;
    }
    k
}

/// Read the body of a quoted string, from just after the opening quote.
fn parse_string_exec(s: &Vec<char>, i: usize) -> (r: Option<(Vec<char>, usize)>)
    requires
        i <= s@.len(),
    ensures
        match r {
            Some((b, e)) => sp_string(s@, i as int) == Some((b@, e as int)) && i < e <= s@.len(),
            None => sp_string(s@, i as int) is None,
        },
    decreases s@.len() - i,
{
    let n = s.len();
    if i >= n {
        return None;
    }
    let c = s[i];
    if c == '"' {
        let b: Vec<char> = Vec::new();
        assert(b@ =~= Seq::<char>::empty());
        return Some((b, i + 1));
    }
    if c == '\\' {
        if n - i < 2 {
            return None;
        }
        let e = s[i + 1];
        if e == '"' || e == '\\' || e == 'n' || e == 't' || e == 'r' {
            let decoded: char = if e == 'n' {
                '\n'
            } else if e == 't' {
                '\t'
            } else if e == 'r' {
                '\r'
            } else {
                e
            };
            match parse_string_exec(s, i + 2) {
                Some((mut rest, end)) => {
                    rest.insert(0, decoded);
                    assert(rest@ =~= seq![decoded] + rest@.drop_first());
                    return Some((rest, end));
                },
                None => { return None },
            }
        } else if e == 'u' {
            if n - i < 6 {
                return None;
            }
            let h1 = hex_val_exec(s[i + 4]);
            let h2 = hex_val_exec(s[i + 5]);
            if s[i + 2] == '0' && s[i + 3] == '0' && h1 < 16 && h2 < 16 && h1 * 16 + h2 < 32 {
                let decoded = ctrl_char_exec(h1 * 16 + h2);
                match parse_string_exec(s, i + 6) {
                    Some((mut rest, end)) => {
                        rest.insert(0, decoded);
                        assert(rest@ =~= seq![decoded] + rest@.drop_first());
                        return Some((rest, end));
                    },
                    None => { return None },
                }
            } else {
                return None;
            }
        } else {
            return None;
        }
    }
    match parse_string_exec(s, i + 1) {
        Some((mut rest, end)) => {
            rest.insert(0, c);
            assert(rest@ =~= seq![c] + rest@.drop_first());
            Some((rest, end))
        },
        None => None,
    }
}

/// The value of a lower-case hexadecimal digit, or 16 where it is none.
fn hex_val_exec(c: char) -> (v: u32)
    ensures
        v as nat == hex_val(c),
{
    let u: u32 = c as u32;
    if 48 <= u && u <= 57 {
        u - 48
    } else if 97 <= u && u <= 102 {
        u - 87
    } else {
        16
    }
}

/// The control character with the given code.
fn ctrl_char_exec(v: u32) -> (c: char)
    requires
        v < 32,
    ensures
        c == ctrl_char(v as nat),
{
    if v == 0 { '\u{0}' }
    else if v == 1 { '\u{1}' }
    else if v == 2 { '\u{2}' }
    else if v == 3 { '\u{3}' }
    else if v == 4 { '\u{4}' }
    else if v == 5 { '\u{5}' }
    else if v == 6 { '\u{6}' }
    else if v == 7 { '\u{7}' }
    else if v == 8 { '\u{8}' }
    else if v == 9 { '\t' }
    else if v == 10 { '\n' }
    else if v == 11 { '\u{b}' }
    else if v == 12 { '\u{c}' }
    else if v == 13 { '\r' }
    else if v == 14 { '\u{e}' }
    else if v == 15 { '\u{f}' }
    else if v == 16 { '\u{10}' }
    else if v == 17 { '\u{11}' }
    else if v == 18 { '\u{12}' }
    else if v == 19 { '\u{13}' }
    else if v == 20 { '\u{14}' }
    else if v == 21 { '\u{15}' }
    else if v == 22 { '\u{16}' }
    else if v == 23 { '\u{17}' }
    else if v == 24 { '\u{18}' }
    else if v == 25 { '\u{19}' }
    else if v == 26 { '\u{1a}' }
    else if v == 27 { '\u{1b}' }
    else if v == 28 { '\u{1c}' }
    else if v == 29 { '\u{1d}' }
    else if v == 30 { '\u{1e}' }
    else { '\u{1f}' }
}

/// Read a run of digits onto an accumulator; `None` when the number does
/// not fit.
fn parse_digits_exec(s: &Vec<char>, i: usize, acc: u64) -> (r: Option<(u64, usize)>)
    requires
        i <= s@.len(),
    ensures
        match r {
            Some((v, e)) => sp_digits(s@, i as int, acc as nat) == (v as nat, e as int) && i <= e
                <= s@.len(),
            None => sp_digits(s@, i as int, acc as nat).0 > u64::MAX,
        },
    decreases s@.len() - i,
{
    let n = s.len();
    if i >= n {
        return Some((acc, i));
    }
    let u: u32 = s[i] as u32;
    if 48 <= u && u <= 57 {
        let d: u64 = (u - 48) as u64;
        match acc.checked_mul(10) {
            Some(m) => match m.checked_add(d) {
                Some(acc2) => {
                    assert(acc2 as nat == acc as nat * 10 + digit_val(s@[i as int]));
                    parse_digits_exec(s, i + 1, acc2)
                },
                None => {
                    proof {
                        lemma_sp_digits_mono(s@, i + 1, acc as nat * 10 + digit_val(s@[i as int]));
                    }
                    None
                },
            },
            None => {
                proof {
                    assert(acc as nat * 10 + digit_val(s@[i as int]) > u64::MAX);
                    lemma_sp_digits_mono(s@, i + 1, acc as nat * 10 + digit_val(s@[i as int]));
                }
                None
            },
        }
    } else {
        Some((acc, i))
    }
}

/// A whole document: one value with nothing but whitespace around it.
pub open spec fn sp_document(s: Seq<char>) -> Option<JsonModel> {
    match sp_value(s, 0) {
        Some((v, j)) => if 0 <= j <= s.len() && skip_ws(s, j) == s.len() {
            Some(v)
        } else {
            None
        },
        None => None,
    }
}

/// Read one value, leading whitespace skipped.
fn parse_value_exec(s: &Vec<char>, i: usize) -> (r: Option<(JsonValue, usize)>)
    requires
        i <= s@.len(),
    ensures
        match r {
            Some((v, e)) => sp_value(s@, i as int) == Some((v@, e as int)) && i < e <= s@.len(),
            None => sp_value(s@, i as int) is None,
        },
    decreases s@.len() - i, 0int,
{
    let n = s.len();
    let j = skip_ws_exec(s, i);
    if j >= n {
        return None;
    }
    let c = s[j];
    let r: Option<(JsonValue, usize)> = if c == 'n' {
        if n - j >= 4 && s[j + 1] == 'u' && s[j + 2] == 'l' && s[j + 3] == 'l' {
            Some((JsonValue::Null, j + 4))
        } else {
            None
        }
    } else if c == 't' {
        if n - j >= 4 && s[j + 1] == 'r' && s[j + 2] == 'u' && s[j + 3] == 'e' {
            Some((JsonValue::Bool(true), j + 4))
        } else {
            None
        }
    } else if c == 'f' {
        if n - j >= 5 && s[j + 1] == 'a' && s[j + 2] == 'l' && s[j + 3] == 's' && s[j + 4] == 'e' {
            Some((JsonValue::Bool(false), j + 5))
        } else {
            None
        }
    } else if c == '"' {
        match parse_string_exec(s, j + 1) {
            Some((body, e)) => Some((JsonValue::Str(crate::text::chars_to_string(&body)), e)),
            None => None,
        }
    } else if 48 <= (c as u32) && (c as u32) <= 57 {
        proof {
            lemma_sp_digits_advances(s@, j as int, 0);
        }
        match parse_digits_exec(s, j, 0) {
            Some((v, e)) => Some((JsonValue::Num(v), e)),
            None => None,
        }
    } else if c == '[' {
        let k = skip_ws_exec(s, j + 1);
        if k < n && s[k] == ']' {
            Some((JsonValue::Arr(Vec::new()), k + 1))
        } else {
            match parse_items_exec(s, j + 1) {
                Some((items, e)) => Some((JsonValue::Arr(items), e)),
                None => None,
            }
        }
    } else if c == '{' {
        let k = skip_ws_exec(s, j + 1);
        if k < n && s[k] == '}' {
            Some((JsonValue::Obj(Vec::new()), k + 1))
        } else {
            match parse_members_exec(s, j + 1) {
                Some((members, e)) => Some((JsonValue::Obj(members), e)),
                None => None,
            }
        }
    } else {
        None
    };
    proof {
        if r is Some {
            crate::json::lemma_arr_model(Seq::<JsonValue>::empty());
            crate::json::lemma_obj_model(Seq::<(String, JsonValue)>::empty());
            assert(crate::json::arr_model(Seq::<JsonValue>::empty()) =~= Seq::<JsonModel>::empty());
            assert(crate::json::obj_model(Seq::<(String, JsonValue)>::empty()) =~= Seq::<(
                Seq<char>,
                JsonModel,
            )>::empty());
        }
    }
    r
}

/// Read the elements of a non-empty array, through its closing bracket.
fn parse_items_exec(s: &Vec<char>, i: usize) -> (r: Option<(Vec<JsonValue>, usize)>)
    requires
        i <= s@.len(),
    ensures
        match r {
            Some((items, e)) => sp_items(s@, i as int) == Some(
                (crate::json::arr_model(items@), e as int),
            ) && i < e <= s@.len(),
            None => sp_items(s@, i as int) is None,
        },
    decreases s@.len() - i, 1int,
{
    let n = s.len();
    let (v, jv) = match parse_value_exec(s, i) {
        Some(p) => p,
        None => { return None },
    };
    let k = skip_ws_exec(s, jv);
    if k < n && s[k] == ',' {
        match parse_items_exec(s, k + 1) {
            Some((mut rest, e)) => {
                let ghost rv = rest@;
                rest.insert(0, v);
                proof {
                    assert(rest@ == rv.insert(0, v));
                    assert(rest@.drop_first() =~= rv);
                    assert(rest@[0] == v);
                    crate::json::lemma_arr_model(rest@);
                    crate::json::lemma_arr_model(rv);
                    assert(crate::json::arr_model(rest@) =~= seq![v@]
                        + crate::json::arr_model(rv));
                }
                Some((rest, e))
            },
            None => None,
        }
    } else if k < n && s[k] == ']' {
        let mut items: Vec<JsonValue> = Vec::new();
        items.push(v);
        proof {
            crate::json::lemma_arr_model(items@);
            assert(crate::json::arr_model(items@) =~= seq![items@[0]@]);
        }
        Some((items, k + 1))
    } else {
        None
    }
}

/// Read the members of a non-empty object, through its closing brace.
fn parse_members_exec(s: &Vec<char>, i: usize) -> (r: Option<(Vec<(String, JsonValue)>, usize)>)
    requires
        i <= s@.len(),
    ensures
        match r {
            Some((members, e)) => sp_members(s@, i as int) == Some(
                (crate::json::obj_model(members@), e as int),
            ) && i < e <= s@.len(),
            None => sp_members(s@, i as int) is None,
        },
    decreases s@.len() - i, 1int,
{
    let n = s.len();
    let j = skip_ws_exec(s, i);
    if !(j < n && s[j] == '"') {
        return None;
    }
    let (key, e1) = match parse_string_exec(s, j + 1) {
        Some(p) => p,
        None => { return None },
    };
    let c = skip_ws_exec(s, e1);
    if !(c < n && s[c] == ':') {
        return None;
    }
    let (v, e2) = match parse_value_exec(s, c + 1) {
        Some(p) => p,
        None => { return None },
    };
    let k = skip_ws_exec(s, e2);
    if k < n && s[k] == ',' {
        match parse_members_exec(s, k + 1) {
            Some((mut rest, e)) => {
                let ks = crate::text::chars_to_string(&key);
                let ghost rv = rest@;
                let ghost kg = ks@;
                rest.insert(0, (ks, v));
                proof {
                    assert(rest@.drop_first() =~= rv);
                    assert(rest@[0].0@ == kg && rest@[0].1 == v);
                    crate::json::lemma_obj_model(rest@);
                    crate::json::lemma_obj_model(rv);
                    assert(crate::json::obj_model(rest@) =~= seq![(kg, v@)]
                        + crate::json::obj_model(rv));
                }
                Some((rest, e))
            },
            None => None,
        }
    } else if k < n && s[k] == '}' {
        let mut members: Vec<(String, JsonValue)> = Vec::new();
        members.push((crate::text::chars_to_string(&key), v));
        proof {
            crate::json::lemma_obj_model(members@);
            assert(crate::json::obj_model(members@) =~= seq![(members@[0].0@, members@[0].1@)]);
        }
        Some((members, k + 1))
    } else {
        None
    }
}

/// Read a whole document back: one value with nothing but whitespace
/// around it.
pub fn parse_document(text: &str) -> (r: Option<JsonValue>)
    ensures
        match r {
            Some(v) => sp_document(text@) == Some(v@),
            None => sp_document(text@) is None,
        },
{
    let cs = crate::text::str_to_chars(text);
    match parse_value_exec(&cs, 0) {
        Some((v, e)) => {
            let k = skip_ws_exec(&cs, e);
            if k == cs.len() {
                Some(v)
            } else {
                proof {
                    lemma_skip_ws_bounds(cs@, e as int);
                }
                None
            }
        },
        None => None,
    }
}

} // verus!
