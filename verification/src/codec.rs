//! The field-tagged text codec of the persisted and transferred data.
//!
//! Task collections and sync metadata travel and rest as compact JSON
//! with fixed field names and enum tag names; files written earlier
//! must stay readable, so the shapes here are part of the system's
//! interface. The encoder writes exactly that compact shape; the
//! decoder reads it back, and reading what was written returns the
//! value unchanged.

use vstd::prelude::*;

use crate::chars::all_digits;
use crate::chars::digit_val;
use crate::chars::digits_val;
use crate::chars::is_digit;
use crate::chars::lemma_digits_val_prefix_le;
use crate::chars::push_char;
use crate::date::enc_datetime;
use crate::date::lemma_datetime_roundtrip;
use crate::date::push_datetime;
use crate::date::spec_parse_datetime;
use crate::date::valid_datetime;
use crate::date::enc_date;
use crate::date::lemma_date_roundtrip;
use crate::date::spec_parse_date;
use crate::date::spec_weekday_of;
use crate::date::valid_date;
use crate::date::weekday_tag;
use crate::sync::SyncAction;
use crate::sync::SyncState;
use crate::sync::SyncStateView;
use crate::todo::KindView;
use crate::todo::Todo;
use crate::todo::TodoState;
use crate::todo::TodoView;
use crate::todo::state_tag;
use crate::todo::wf_kind;
use crate::todo::wf_todo;

verus! {

/// One character as the encoder writes it inside a quoted string:
/// quote and backslash escaped, the named control characters short,
/// other control characters in the `\u00..` form, everything else as
/// itself.
pub open spec fn esc_char(c: char) -> Seq<char> {
    if c == '"' {
        seq!['\\', '"']
    } else if c == '\\' {
        seq!['\\', '\\']
    } else if c == '\u{8}' {
        seq!['\\', 'b']
    } else if c == '\t' {
        seq!['\\', 't']
    } else if c == '\n' {
        seq!['\\', 'n']
    } else if c == '\u{c}' {
        seq!['\\', 'f']
    } else if c == '\r' {
        seq!['\\', 'r']
    } else if (c as u32) < 32 {
        seq!['\\', 'u', '0', '0', spec_hex_char(c as u32 as int / 16), spec_hex_char(
            c as u32 as int % 16)]
    } else {
        seq![c]
    }
}

/// A text with every character escaped as the encoder writes it.
pub open spec fn esc(s: Seq<char>) -> Seq<char>
    decreases s.len(),
{
    if s.len() == 0 {
        Seq::empty()
    } else {
        esc_char(s[0]) + esc(s.drop_first())
    }
}

/// A quoted, escaped string.
pub open spec fn enc_str(s: Seq<char>) -> Seq<char> {
    seq!['"'] + esc(s) + seq!['"']
}

/// The lower-case hexadecimal digit of a value below sixteen.
pub open spec fn spec_hex_char(d: int) -> char {
    if d < 10 {
        crate::chars::spec_digit_char(d)
    } else if d == 10 { 'a' }
    else if d == 11 { 'b' }
    else if d == 12 { 'c' }
    else if d == 13 { 'd' }
    else if d == 14 { 'e' }
    else { 'f' }
}

/// Value of a hexadecimal digit character, of either case; negative
/// for anything else.
pub open spec fn hex_val(c: char) -> int {
    if is_digit(c) {
        digit_val(c)
    } else if 'a' as u32 <= c as u32 <= 'f' as u32 {
        c as u32 - 'a' as u32 + 10
    } else if 'A' as u32 <= c as u32 <= 'F' as u32 {
        c as u32 - 'A' as u32 + 10
    } else {
        -1
    }
}

/// The character with the given code.
pub open spec fn char_of_code(v: int) -> char {
    v as u32 as char
}

proof fn lemma_hex_of_val(d: int)
    requires
        0 <= d < 16,
    ensures
        hex_val(spec_hex_char(d)) == d,
{
    if d < 10 {
        crate::chars::lemma_digit_char_val(d);
    }
}

/// Escaping distributes over concatenation.
pub proof fn lemma_esc_append(a: Seq<char>, b: Seq<char>)
    ensures
        esc(a + b) == esc(a) + esc(b),
    decreases a.len(),
{
    if a.len() == 0 {
        assert(a + b =~= b);
        assert(esc(a) + esc(b) =~= esc(b));
    } else {
        lemma_esc_append(a.drop_first(), b);
        assert((a + b).drop_first() =~= a.drop_first() + b);
        assert((a + b)[0] == a[0]);
        assert(esc(a + b) == esc_char(a[0]) + (esc(a.drop_first()) + esc(b)));
        assert(esc_char(a[0]) + (esc(a.drop_first()) + esc(b)) =~= (esc_char(a[0]) + esc(
            a.drop_first())) + esc(b));
    }
}

/// The text `x` stands at position `i` of `s`.
pub open spec fn has_at(s: Seq<char>, i: int, x: Seq<char>) -> bool {
    0 <= i && i + x.len() <= s.len() && s.subrange(i, i + x.len()) == x
}

/// What stands at a position splits as its parts do.
pub proof fn lemma_has_split(s: Seq<char>, i: int, a: Seq<char>, b: Seq<char>)
    requires
        has_at(s, i, a + b),
    ensures
        has_at(s, i, a),
        has_at(s, i + a.len(), b),
{
    let ab = a + b;
    assert forall|k: int| 0 <= k < a.len() implies s.subrange(i, i + a.len())[k] == a[k] by {
        assert(s.subrange(i, i + ab.len())[k] == ab[k]);
    }
    assert(s.subrange(i, i + a.len()) =~= a);
    assert forall|k: int| 0 <= k < b.len() implies s.subrange(i + a.len(), i + a.len()
        + b.len())[k] == b[k] by {
        assert(s.subrange(i, i + ab.len())[a.len() + k] == ab[a.len() + k]);
    }
    assert(s.subrange(i + a.len(), i + a.len() + b.len()) =~= b);
}

/// Each character of what stands at a position is readable there.
pub proof fn lemma_has_index(s: Seq<char>, i: int, x: Seq<char>, k: int)
    requires
        has_at(s, i, x),
        0 <= k < x.len(),
    ensures
        s[i + k] == x[k],
{
    assert(s.subrange(i, i + x.len())[k] == x[k]);
}

/// The position after a fixed text, when it stands at `i`.
pub open spec fn expect(s: Seq<char>, i: int, lit: Seq<char>) -> Option<int> {
    if has_at(s, i, lit) {
        Some(i + lit.len())
    } else {
        None
    }
}

/// Checks for a fixed text at a position; the position after it.
pub fn expect_lit(s: &str, i: usize, lit: &str) -> (r: Option<usize>)
    requires
        i <= s@.len() <= usize::MAX,
    ensures
        r is Some ==> Some(r.unwrap() as int) == expect(s@, i as int, lit@) && r.unwrap()
            == i + lit@.len(),
        r is None ==> expect(s@, i as int, lit@) is None,
{
    let n = s.unicode_len();
    let m = lit.unicode_len();
    if m > n - i {
        proof {
            assert(!has_at(s@, i as int, lit@));
        }
        return None;
    }
    let mut k: usize = 0;
    while k < m
        invariant
            0 <= k <= m,
            i + m <= n,
            n == s@.len(),
            m == lit@.len(),
            forall|j: int| 0 <= j < k ==> s@[i + j] == lit@[j],
        decreases m - k,
    {
        if s.get_char(i + k) != lit.get_char(k) {
            proof {
                if has_at(s@, i as int, lit@) {
                    lemma_has_index(s@, i as int, lit@, k as int);
                }
            }
            return None;
        }
        k = k + 1;
    }
    proof {
        assert(s@.subrange(i as int, i + m) =~= lit@);
    }
    Some(i + m)
}

/// What a quoted string's remainder reads back to: the text up to the
/// closing quote, unescaped, and the position after the quote.
pub open spec fn dec_str_body(s: Seq<char>, i: int) -> Option<(Seq<char>, int)>
    decreases s.len() - i,
{
    if i < 0 || i >= s.len() {
        None
    } else if s[i] == '"' {
        Some((Seq::empty(), i + 1))
    } else if s[i] == '\\' {
        if i + 2 <= s.len() {
            let e = s[i + 1];
            if e == '"' {
                cons_char('"', dec_str_body(s, i + 2))
            } else if e == '\\' {
                cons_char('\\', dec_str_body(s, i + 2))
            } else if e == '/' {
                cons_char('/', dec_str_body(s, i + 2))
            } else if e == 'b' {
                cons_char('\u{8}', dec_str_body(s, i + 2))
            } else if e == 't' {
                cons_char('\t', dec_str_body(s, i + 2))
            } else if e == 'n' {
                cons_char('\n', dec_str_body(s, i + 2))
            } else if e == 'f' {
                cons_char('\u{c}', dec_str_body(s, i + 2))
            } else if e == 'r' {
                cons_char('\r', dec_str_body(s, i + 2))
            } else if e == 'u' && i + 6 <= s.len() && s[i + 2] == '0' && s[i + 3] == '0'
                && hex_val(s[i + 4]) >= 0 && hex_val(s[i + 5]) >= 0 && hex_val(s[i + 4])
                * 16 + hex_val(s[i + 5]) < 32 {
                cons_char(char_of_code(hex_val(s[i + 4]) * 16 + hex_val(s[i + 5])),
                    dec_str_body(s, i + 6))
            } else {
                None
            }
        } else {
            None
        }
    } else {
        cons_char(s[i], dec_str_body(s, i + 1))
    }
}

pub open spec fn cons_char(c: char, r: Option<(Seq<char>, int)>) -> Option<(Seq<char>, int)> {
    match r {
        Some((t, j)) => Some((seq![c] + t, j)),
        None => None,
    }
}

/// What a quoted string reads back to, from its opening quote.
pub open spec fn dec_str(s: Seq<char>, i: int) -> Option<(Seq<char>, int)> {
    if 0 <= i < s.len() && s[i] == '"' {
        dec_str_body(s, i + 1)
    } else {
        None
    }
}

/// An escaped text followed by a closing quote reads back to the text.
pub proof fn lemma_dec_str_body_of_esc(s: Seq<char>, i: int, x: Seq<char>)
    requires
        has_at(s, i, esc(x) + seq!['"']),
    ensures
        dec_str_body(s, i) == Some((x, i + esc(x).len() + 1)),
    decreases x.len(),
{
    if x.len() == 0 {
        assert(esc(x) + seq!['"'] =~= seq!['"']);
        lemma_has_index(s, i, seq!['"'], 0);
    } else {
        let c = x[0];
        let rest = x.drop_first();
        assert(esc(x) == esc_char(c) + esc(rest));
        assert((esc_char(c) + esc(rest)) + seq!['"'] =~= esc_char(c) + (esc(rest)
            + seq!['"']));
        lemma_has_split(s, i, esc_char(c), esc(rest) + seq!['"']);
        let j = i + esc_char(c).len();
        lemma_dec_str_body_of_esc(s, j, rest);
        assert(seq![c] + rest =~= x);
        if c == '"' || c == '\\' {
            lemma_has_index(s, i, esc_char(c), 0);
            lemma_has_index(s, i, esc_char(c), 1);
        } else if c == '\u{8}' || c == '\t' || c == '\n' || c == '\u{c}' || c == '\r' {
            lemma_has_index(s, i, esc_char(c), 0);
            lemma_has_index(s, i, esc_char(c), 1);
        } else if (c as u32) < 32 {
            lemma_has_index(s, i, esc_char(c), 0);
            lemma_has_index(s, i, esc_char(c), 1);
            lemma_has_index(s, i, esc_char(c), 2);
            lemma_has_index(s, i, esc_char(c), 3);
            lemma_has_index(s, i, esc_char(c), 4);
            lemma_has_index(s, i, esc_char(c), 5);
            lemma_hex_of_val(c as u32 as int / 16);
            lemma_hex_of_val(c as u32 as int % 16);
            assert(c as u32 as int / 16 * 16 + c as u32 as int % 16 == c as u32 as int);
            vstd::utf8::char_u32_cast(c, c as u32);
            assert(char_of_code(c as u32 as int) == (c as u32) as char);
            assert(char_of_code(c as u32 as int) == c);
        } else {
            lemma_has_index(s, i, esc_char(c), 0);
            assert(s[i] == c);
        }
    }
}

/// A whole quoted, escaped string reads back to its text.
pub proof fn lemma_dec_str_of_enc(s: Seq<char>, i: int, x: Seq<char>)
    requires
        has_at(s, i, enc_str(x)),
    ensures
        dec_str(s, i) == Some((x, i + enc_str(x).len())),
{
    assert(enc_str(x) =~= seq!['"'] + (esc(x) + seq!['"']));
    lemma_has_split(s, i, seq!['"'], esc(x) + seq!['"']);
    lemma_has_index(s, i, seq!['"'], 0);
    lemma_dec_str_body_of_esc(s, i + 1, x);
}

/// Relies on char::from_u32: the character with the given code, which
/// exists for every code below the surrogate range.
#[verifier::external_body]
fn char_from_code(v: u32) -> (c: char)
    requires
        v < 32,
    ensures
        c == char_of_code(v as int),
{
    char::from_u32(v).unwrap()
}

/// The lower-case hexadecimal digit of a value below sixteen.
fn hex_char(d: u32) -> (c: char)
    requires
        d < 16,
    ensures
        c == spec_hex_char(d as int),
{
    if d < 10 {
        crate::chars::digit_char(d)
    } else if d == 10 { 'a' }
    else if d == 11 { 'b' }
    else if d == 12 { 'c' }
    else if d == 13 { 'd' }
    else if d == 14 { 'e' }
    else { 'f' }
}

/// Value of a hexadecimal digit character, if it is one.
fn read_hex(c: char) -> (r: Option<u32>)
    ensures
        r is Some <==> hex_val(c) >= 0,
        r is Some ==> r.unwrap() == hex_val(c) && r.unwrap() < 16,
{
    let cv = c as u32;
    if 48 <= cv && cv <= 57 {
        Some(cv - 48)
    } else if 97 <= cv && cv <= 102 {
        Some(cv - 97 + 10)
    } else if 65 <= cv && cv <= 70 {
        Some(cv - 65 + 10)
    } else {
        None
    }
}

/// Appends a text in its quoted, escaped form.
pub fn push_json_str(out: &mut String, s: &str)
    ensures
        final(out)@ == old(out)@ + enc_str(s@),
{
    push_char(out, '"');
    let n = s.unicode_len();
    let mut i: usize = 0;
    while i < n
        invariant
            0 <= i <= n,
            n == s@.len(),
            out@ == old(out)@ + seq!['"'] + esc(s@.subrange(0, i as int)),
        decreases n - i,
    {
        let c = s.get_char(i);
        proof {
            lemma_esc_append(s@.subrange(0, i as int), seq![c]);
            assert(s@.subrange(0, i + 1int) =~= s@.subrange(0, i as int) + seq![c]);
            assert(seq![c].drop_first() =~= Seq::<char>::empty());
            assert(esc(seq![c]) == esc_char(c) + esc(Seq::<char>::empty()));
            assert(esc(seq![c]) =~= esc_char(c));
        }
        if c == '"' {
            out.append("\\\"");
            proof {
                reveal_strlit("\\\"");
                assert("\\\""@ =~= esc_char(c));
            }
        } else if c == '\\' {
            out.append("\\\\");
            proof {
                reveal_strlit("\\\\");
                assert("\\\\"@ =~= esc_char(c));
            }
        } else if c == '\u{8}' {
            out.append("\\b");
            proof {
                reveal_strlit("\\b");
                assert("\\b"@ =~= esc_char(c));
            }
        } else if c == '\t' {
            out.append("\\t");
            proof {
                reveal_strlit("\\t");
                assert("\\t"@ =~= esc_char(c));
            }
        } else if c == '\n' {
            out.append("\\n");
            proof {
                reveal_strlit("\\n");
                assert("\\n"@ =~= esc_char(c));
            }
        } else if c == '\u{c}' {
            out.append("\\f");
            proof {
                reveal_strlit("\\f");
                assert("\\f"@ =~= esc_char(c));
            }
        } else if c == '\r' {
            out.append("\\r");
            proof {
                reveal_strlit("\\r");
                assert("\\r"@ =~= esc_char(c));
            }
        } else {
            let cv = c as u32;
            if cv < 32 {
                out.append("\\u00");
                push_char(out, hex_char(cv / 16));
                push_char(out, hex_char(cv % 16));
                proof {
                    reveal_strlit("\\u00");
                    assert("\\u00"@ + seq![spec_hex_char(cv as int / 16)] + seq![
                        spec_hex_char(cv as int % 16)] =~= esc_char(c));
                }
            } else {
                push_char(out, c);
                proof {
                    assert(seq![c] =~= esc_char(c));
                }
            }
        }
        proof {
            assert(out@ =~= old(out)@ + seq!['"'] + esc(s@.subrange(0, i + 1int)));
        }
        i = i + 1;
    }
    push_char(out, '"');
    proof {
        assert(s@.subrange(0, n as int) =~= s@);
        assert(out@ =~= old(out)@ + enc_str(s@));
    }
}

/// Reads a quoted, escaped string from its opening quote; the text and
/// the position after the closing quote.
pub fn read_json_str(s: &str, i: usize) -> (r: Option<(String, usize)>)
    requires
        i <= s@.len() <= usize::MAX,
    ensures
        r is Some <==> dec_str(s@, i as int) is Some,
        r is Some ==> r.unwrap().0@ == dec_str(s@, i as int).unwrap().0 && r.unwrap().1
            == dec_str(s@, i as int).unwrap().1 && i < r.unwrap().1 <= s@.len(),
{
    let n = s.unicode_len();
    if i >= n || s.get_char(i) != '"' {
        return None;
    }
    let start: usize = i + 1;
    let mut j: usize = start;
    let mut out = String::new();
    loop
        invariant
            i + 1 == start,
            start <= j <= n,
            n == s@.len() <= usize::MAX,
            dec_str(s@, i as int) == dec_str_body(s@, start as int),
            dec_str_body(s@, j as int) is Some ==> dec_str_body(s@, start as int)
                == Some((out@ + dec_str_body(s@, j as int).unwrap().0, dec_str_body(s@,
                j as int).unwrap().1)),
            dec_str_body(s@, j as int) is None ==> dec_str_body(s@, start as int) is None,
        decreases n - j,
    {
        if j >= n {
            return None;
        }
        let c = s.get_char(j);
        if c == '"' {
            proof {
                assert(out@ + Seq::<char>::empty() =~= out@);
            }
            return Some((out, j + 1));
        }
        let (produced, consumed): (char, usize) = if c == '\\' {
            if n - j < 2 {
                return None;
            }
            let e = s.get_char(j + 1);
            if e == '"' {
                ('"', 2)
            } else if e == '\\' {
                ('\\', 2)
            } else if e == '/' {
                ('/', 2)
            } else if e == 'b' {
                ('\u{8}', 2)
            } else if e == 't' {
                ('\t', 2)
            } else if e == 'n' {
                ('\n', 2)
            } else if e == 'f' {
                ('\u{c}', 2)
            } else if e == 'r' {
                ('\r', 2)
            } else if e == 'u' {
                if n - j < 6 || s.get_char(j + 2) != '0' || s.get_char(j + 3) != '0' {
                    return None;
                }
                let h1 = match read_hex(s.get_char(j + 4)) {
                    Some(v) => v,
                    None => {
                        return None;
                    },
                };
                let h2 = match read_hex(s.get_char(j + 5)) {
                    Some(v) => v,
                    None => {
                        return None;
                    },
                };
                let v = h1 * 16 + h2;
                if v >= 32 {
                    return None;
                }
                (char_from_code(v), 6)
            } else {
                return None;
            }
        } else {
            (c, 1)
        };
        push_char(&mut out, produced);
        proof {
            let body_next = dec_str_body(s@, j + consumed as int);
            assert(dec_str_body(s@, j as int) == cons_char(produced, body_next));
            if body_next is Some {
                assert(out@ + body_next.unwrap().0 =~= (out@.drop_last() + (seq![produced]
                    + body_next.unwrap().0)));
            }
        }
        j = j + consumed;
    }
}

/// Index just past the run of digit characters starting at `i`.
pub open spec fn digit_run_end(s: Seq<char>, i: int) -> int
    decreases s.len() - i,
{
    if i < 0 {
        0
    } else if i >= s.len() {
        s.len() as int
    } else if !is_digit(s[i]) {
        i
    } else {
        digit_run_end(s, i + 1)
    }
}

proof fn lemma_digit_run_props(s: Seq<char>, i: int)
    requires
        0 <= i <= s.len(),
    ensures
        i <= digit_run_end(s, i) <= s.len(),
        forall|k: int| i <= k < digit_run_end(s, i) ==> is_digit(#[trigger] s[k]),
        digit_run_end(s, i) == s.len() || !is_digit(s[digit_run_end(s, i)]),
    decreases s.len() - i,
{
    if i < s.len() && is_digit(s[i]) {
        lemma_digit_run_props(s, i + 1);
    }
}

proof fn lemma_digit_run_fixed(s: Seq<char>, i: int, j: int)
    requires
        0 <= i <= j <= s.len(),
        forall|k: int| i <= k < j ==> is_digit(#[trigger] s[k]),
        j == s.len() || !is_digit(s[j]),
    ensures
        digit_run_end(s, i) == j,
    decreases j - i,
{
    if i < j {
        lemma_digit_run_fixed(s, i + 1, j);
    }
}

/// What a number field reads back to: the maximal digit run, taken in
/// its minimal decimal form, with its value.
pub open spec fn dec_u32(s: Seq<char>, i: int) -> Option<(u32, int)> {
    let e = digit_run_end(s, i);
    if 0 <= i < e && (s[i] != '0' || e == i + 1) && digits_val(s.subrange(i, e))
        <= 4294967295 {
        Some((digits_val(s.subrange(i, e)) as u32, e))
    } else {
        None
    }
}

/// A written number followed by anything but a digit reads back to its
/// value.
pub proof fn lemma_dec_u32_of_enc(s: Seq<char>, i: int, n: u32)
    requires
        has_at(s, i, crate::chars::enc_u32(n as int)),
        i + crate::chars::enc_u32(n as int).len() == s.len() || !is_digit(s[i
            + crate::chars::enc_u32(n as int).len()]),
    ensures
        dec_u32(s, i) == Some((n, i + crate::chars::enc_u32(n as int).len())),
{
    let x = crate::chars::enc_u32(n as int);
    crate::chars::lemma_enc_u32_val(n as int);
    assert forall|k: int| i <= k < i + x.len() implies is_digit(#[trigger] s[k]) by {
        lemma_has_index(s, i, x, k - i);
    }
    lemma_digit_run_fixed(s, i, i + x.len());
    assert(s.subrange(i, i + x.len()) == x);
    lemma_has_index(s, i, x, 0);
}

fn is_digit_exec(c: char) -> (r: bool)
    ensures
        r == is_digit(c),
{
    let cv = c as u32;
    48 <= cv && cv <= 57
}

/// Reads a number field: the maximal digit run in minimal form.
pub fn read_u32(s: &str, i: usize) -> (r: Option<(u32, usize)>)
    requires
        i <= s@.len() <= usize::MAX,
    ensures
        r is Some <==> dec_u32(s@, i as int) is Some,
        r is Some ==> r.unwrap().0 == dec_u32(s@, i as int).unwrap().0 && r.unwrap().1
            == dec_u32(s@, i as int).unwrap().1 && i < r.unwrap().1 <= s@.len(),
{
    let n = s.unicode_len();
    proof {
        lemma_digit_run_props(s@, i as int);
    }
    if i >= n {
        return None;
    }
    let c0 = s.get_char(i) as u32;
    if c0 < 48 || c0 > 57 {
        return None;
    }
    let ghost e = digit_run_end(s@, i as int);
    if c0 == 48 {
        if i + 1 < n {
            let c1 = s.get_char(i + 1) as u32;
            if 48 <= c1 && c1 <= 57 {
                proof {
                    assert(is_digit(s@[i + 1int]));
                    lemma_digit_run_fixed(s@, i + 1int, e);
                    assert(e >= i + 2);
                }
                return None;
            }
        }
        proof {
            lemma_digit_run_fixed(s@, i as int, i + 1int);
            assert(s@.subrange(i as int, i + 1int) =~= seq![s@[i as int]]);
            assert(digits_val(seq![s@[i as int]]) == digit_val(s@[i as int])) by {
                assert(seq![s@[i as int]].drop_last() =~= Seq::<char>::empty());
                assert(seq![s@[i as int]].last() == s@[i as int]);
                assert(digits_val(Seq::<char>::empty()) == 0);
            }
        }
        return Some((0, i + 1));
    }
    let mut acc: u64 = 0;
    let mut j: usize = i;
    while j < n && is_digit_exec(s.get_char(j))
        invariant
            i <= j <= n,
            n == s@.len() <= usize::MAX,
            e == digit_run_end(s@, i as int),
            i <= e <= n,
            forall|k: int| i <= k < e ==> is_digit(#[trigger] s@[k]),
            e == s@.len() || !is_digit(s@[e]),
            j <= e,
            j < e || j == e,
            forall|k: int| i <= k < j ==> is_digit(#[trigger] s@[k]),
            acc <= 4294967295,
            acc == digits_val(s@.subrange(i as int, j as int)),
        decreases n - j,
    {
        proof {
            lemma_digit_run_fixed(s@, j as int, e);
        }
        let d = s.get_char(j) as u32 - 48;
        let next = acc * 10 + d as u64;
        let ghost pre = s@.subrange(i as int, j as int);
        let ghost ext = s@.subrange(i as int, j + 1int);
        proof {
            assert(ext.drop_last() =~= pre);
            assert(ext.last() == s@[j as int]);
        }
        if next > 4294967295 {
            proof {
                let run = s@.subrange(i as int, e);
                assert(all_digits(run));
                lemma_digits_val_prefix_le(run, j + 1 - i as int);
                assert(ext =~= run.subrange(0, j + 1 - i as int));
                assert(digits_val(run) > 4294967295);
            }
            return None;
        }
        acc = next;
        j = j + 1;
    }
    proof {
        if j < n {
            assert(!is_digit(s@[j as int]));
        }
        lemma_digit_run_fixed(s@, i as int, j as int);
        assert(e == j as int);
    }
    Some((acc as u32, j))
}

/// The tag name of each sync operation kind, as persisted.
pub open spec fn action_tag(a: SyncAction) -> Seq<char> {
    match a {
        SyncAction::Init => "Init"@,
        SyncAction::LocalSave => "LocalSave"@,
        SyncAction::UploadToServer => "UploadToServer"@,
        SyncAction::DownloadFromServer => "DownloadFromServer"@,
    }
}

/// A sync state as one record: identity, operation kind tag, save time.
pub open spec fn enc_sync_state(v: SyncStateView) -> Seq<char> {
    "{\"id\":"@ + enc_str(v.id) + ",\"last_sync_kind\":\""@ + action_tag(v.last_sync_kind)
        + "\",\"last_save_at\":\""@ + enc_datetime(v.last_save_at, 'T') + "\"}"@
}

/// What an operation-kind tag with its closing quote reads back to.
pub open spec fn dec_action(s: Seq<char>, i: int) -> Option<(SyncAction, int)> {
    if expect(s, i, action_tag(SyncAction::Init) + seq!['"']) is Some {
        Some((SyncAction::Init, expect(s, i, action_tag(SyncAction::Init) + seq!['"']).unwrap()))
    } else if expect(s, i, action_tag(SyncAction::LocalSave) + seq!['"']) is Some {
        Some((SyncAction::LocalSave, expect(s, i, action_tag(SyncAction::LocalSave)
            + seq!['"']).unwrap()))
    } else if expect(s, i, action_tag(SyncAction::UploadToServer) + seq!['"']) is Some {
        Some((SyncAction::UploadToServer, expect(s, i, action_tag(SyncAction::UploadToServer)
            + seq!['"']).unwrap()))
    } else if expect(s, i, action_tag(SyncAction::DownloadFromServer) + seq!['"']) is Some {
        Some((SyncAction::DownloadFromServer, expect(s, i, action_tag(
            SyncAction::DownloadFromServer) + seq!['"']).unwrap()))
    } else {
        None
    }
}

/// Position after an optional fractional-seconds tail: a dot and at
/// least one digit. Other writers stamp sub-second precision; this
/// model keeps seconds and drops the rest.
pub open spec fn frac_end(s: Seq<char>, i: int) -> int {
    if 0 <= i < s.len() && s[i] == '.' && digit_run_end(s, i + 1) > i + 1 {
        digit_run_end(s, i + 1)
    } else {
        i
    }
}

/// What a whole sync-state record reads back to.
pub open spec fn dec_sync_state(s: Seq<char>, i: int) -> Option<(SyncStateView, int)> {
    match expect(s, i, "{\"id\":"@) {
        None => None,
        Some(i1) => match dec_str(s, i1) {
            None => None,
            Some((id, i2)) => match expect(s, i2, ",\"last_sync_kind\":\""@) {
                None => None,
                Some(i3) => match dec_action(s, i3) {
                    None => None,
                    Some((a, i4)) => match expect(s, i4, ",\"last_save_at\":\""@) {
                        None => None,
                        Some(i5) => if i5 + 19 <= s.len() && spec_parse_datetime(s.subrange(
                            i5, i5 + 19), 'T') is Some {
                            let dt = spec_parse_datetime(s.subrange(i5, i5 + 19),
                                'T').unwrap();
                            match expect(s, frac_end(s, i5 + 19), "\"}"@) {
                                None => None,
                                Some(i6) => Some((SyncStateView {
                                    id: id,
                                    last_sync_kind: a,
                                    last_save_at: dt,
                                }, i6)),
                            }
                        } else {
                            None
                        },
                    },
                },
            },
        },
    }
}

/// A fixed text whose character differs from what stands in `s` does
/// not stand there.
proof fn lemma_expect_differs(s: Seq<char>, i: int, lit: Seq<char>, k: int)
    requires
        0 <= k < lit.len(),
        i + k >= s.len() || s[i + k] != lit[k],
    ensures
        expect(s, i, lit) is None,
{
    if has_at(s, i, lit) {
        lemma_has_index(s, i, lit, k);
    }
}

/// A written operation-kind tag reads back to the kind.
proof fn lemma_dec_action_of_enc(s: Seq<char>, i: int, a: SyncAction)
    requires
        has_at(s, i, action_tag(a) + seq!['"']),
    ensures
        dec_action(s, i) == Some((a, i + action_tag(a).len() + 1)),
{
    reveal_strlit("Init");
    reveal_strlit("LocalSave");
    reveal_strlit("UploadToServer");
    reveal_strlit("DownloadFromServer");
    lemma_has_index(s, i, action_tag(a) + seq!['"'], 0);
    match a {
        SyncAction::Init => {
        },
        SyncAction::LocalSave => {
            lemma_expect_differs(s, i, action_tag(SyncAction::Init) + seq!['"'], 0);
        },
        SyncAction::UploadToServer => {
            lemma_expect_differs(s, i, action_tag(SyncAction::Init) + seq!['"'], 0);
            lemma_expect_differs(s, i, action_tag(SyncAction::LocalSave) + seq!['"'], 0);
        },
        SyncAction::DownloadFromServer => {
            lemma_expect_differs(s, i, action_tag(SyncAction::Init) + seq!['"'], 0);
            lemma_expect_differs(s, i, action_tag(SyncAction::LocalSave) + seq!['"'], 0);
            lemma_expect_differs(s, i, action_tag(SyncAction::UploadToServer) + seq!['"'], 0);
        },
    }
}

/// Writing a sync state and reading it back gives the state again.
pub proof fn lemma_sync_state_roundtrip(s: Seq<char>, i: int, v: SyncStateView)
    requires
        has_at(s, i, enc_sync_state(v)),
        valid_datetime(v.last_save_at),
    ensures
        dec_sync_state(s, i) == Some((v, i + enc_sync_state(v).len())),
{
    reveal_strlit("{\"id\":");
    reveal_strlit(",\"last_sync_kind\":\"");
    reveal_strlit("\",\"last_save_at\":\"");
    reveal_strlit(",\"last_save_at\":\"");
    reveal_strlit("\"}");
    let l1 = "{\"id\":"@;
    let p1 = enc_str(v.id);
    let l2 = ",\"last_sync_kind\":\""@;
    let p2 = action_tag(v.last_sync_kind) + seq!['"'];
    let l3 = ",\"last_save_at\":\""@;
    let p3 = enc_datetime(v.last_save_at, 'T');
    let l4 = "\"}"@;
    assert(enc_sync_state(v) =~= l1 + (p1 + (l2 + ((p2 + l3) + (p3 + l4)))));
    lemma_has_split(s, i, l1, p1 + (l2 + ((p2 + l3) + (p3 + l4))));
    let i1 = i + l1.len();
    lemma_has_split(s, i1, p1, l2 + ((p2 + l3) + (p3 + l4)));
    let i2 = i1 + p1.len();
    lemma_has_split(s, i2, l2, (p2 + l3) + (p3 + l4));
    let i3 = i2 + l2.len();
    lemma_has_split(s, i3, p2 + l3, p3 + l4);
    lemma_has_split(s, i3, p2, l3);
    let i4 = i3 + p2.len();
    let i5 = i4 + l3.len();
    lemma_has_split(s, i5, p3, l4);
    lemma_dec_str_of_enc(s, i1, v.id);
    lemma_dec_action_of_enc(s, i3, v.last_sync_kind);
    lemma_datetime_roundtrip(v.last_save_at, 'T');
    assert(s.subrange(i5, i5 + 19) == p3);
    assert(frac_end(s, i5 + 19) == i5 + 19) by {
        lemma_has_index(s, i5 + 19, l4, 0);
    }
    assert(expect(s, i, l1) == Some(i1));
    assert(expect(s, i2, l2) == Some(i3));
    assert(dec_str(s, i1) == Some((v.id, i2)));
    assert(dec_action(s, i3) == Some((v.last_sync_kind, i4)));
    assert(expect(s, i4, l3) == Some(i5));
    assert(expect(s, i5 + 19, l4) == Some(i5 + 19 + l4.len()));
}

/// A deadline kind as a tagged value: a bare tag for a plain task, a
/// one-field record for the others.
pub open spec fn enc_kind(k: KindView) -> Seq<char> {
    match k {
        KindView::General => "\"General\""@,
        KindView::Progress(t) => "{\"Progress\":"@ + enc_str(t) + "}"@,
        KindView::Week(w) => "{\"Week\":\""@ + weekday_tag(w) + "\"}"@,
        KindView::Month(m) => "{\"Month\":"@ + crate::chars::enc_u32(m as int) + "}"@,
        KindView::Once(d) => "{\"Once\":\""@ + enc_date(d) + "\"}"@,
    }
}

/// What a weekday tag with its closing quote reads back to.
pub open spec fn dec_weekday(s: Seq<char>, i: int) -> Option<(crate::date::Weekday, int)> {
    if 0 <= i && i + 4 <= s.len() && s[i + 3] == '"' && spec_weekday_of(s.subrange(i, i + 3))
        is Some {
        Some((spec_weekday_of(s.subrange(i, i + 3)).unwrap(), i + 4))
    } else {
        None
    }
}

/// What a deadline kind reads back to.
pub open spec fn dec_kind(s: Seq<char>, i: int) -> Option<(KindView, int)> {
    if expect(s, i, "\"General\""@) is Some {
        Some((KindView::General, expect(s, i, "\"General\""@).unwrap()))
    } else if expect(s, i, "{\"Progress\":"@) is Some {
        match dec_str(s, expect(s, i, "{\"Progress\":"@).unwrap()) {
            None => None,
            Some((t, j)) => match expect(s, j, seq!['}']) {
                None => None,
                Some(j1) => Some((KindView::Progress(t), j1)),
            },
        }
    } else if expect(s, i, "{\"Week\":\""@) is Some {
        match dec_weekday(s, expect(s, i, "{\"Week\":\""@).unwrap()) {
            None => None,
            Some((w, j)) => match expect(s, j, seq!['}']) {
                None => None,
                Some(j1) => Some((KindView::Week(w), j1)),
            },
        }
    } else if expect(s, i, "{\"Month\":"@) is Some {
        match dec_u32(s, expect(s, i, "{\"Month\":"@).unwrap()) {
            None => None,
            Some((m, j)) => match expect(s, j, seq!['}']) {
                None => None,
                Some(j1) => Some((KindView::Month(m), j1)),
            },
        }
    } else if expect(s, i, "{\"Once\":\""@) is Some {
        let i1 = expect(s, i, "{\"Once\":\""@).unwrap();
        if i1 + 10 <= s.len() && spec_parse_date(s.subrange(i1, i1 + 10)) is Some {
            match expect(s, i1 + 10, "\"}"@) {
                None => None,
                Some(j1) => Some((KindView::Once(spec_parse_date(s.subrange(i1, i1
                    + 10)).unwrap()), j1)),
            }
        } else {
            None
        }
    } else {
        None
    }
}

/// What a task-state tag with its closing quote reads back to.
pub open spec fn dec_state(s: Seq<char>, i: int) -> Option<(TodoState, int)> {
    if expect(s, i, state_tag(TodoState::NoDeadline) + seq!['"']) is Some {
        Some((TodoState::NoDeadline, expect(s, i, state_tag(TodoState::NoDeadline)
            + seq!['"']).unwrap()))
    } else if expect(s, i, state_tag(TodoState::InProgress) + seq!['"']) is Some {
        Some((TodoState::InProgress, expect(s, i, state_tag(TodoState::InProgress)
            + seq!['"']).unwrap()))
    } else if expect(s, i, state_tag(TodoState::UpComing) + seq!['"']) is Some {
        Some((TodoState::UpComing, expect(s, i, state_tag(TodoState::UpComing)
            + seq!['"']).unwrap()))
    } else if expect(s, i, state_tag(TodoState::Expired) + seq!['"']) is Some {
        Some((TodoState::Expired, expect(s, i, state_tag(TodoState::Expired)
            + seq!['"']).unwrap()))
    } else {
        None
    }
}

pub open spec fn enc_bool(b: bool) -> Seq<char> {
    if b {
        "true"@
    } else {
        "false"@
    }
}

pub open spec fn dec_bool(s: Seq<char>, i: int) -> Option<(bool, int)> {
    if expect(s, i, "true"@) is Some {
        Some((true, expect(s, i, "true"@).unwrap()))
    } else if expect(s, i, "false"@) is Some {
        Some((false, expect(s, i, "false"@).unwrap()))
    } else {
        None
    }
}

/// A task record with every field under its name.
pub open spec fn enc_todo(t: TodoView) -> Seq<char> {
    "{\"text\":"@ + enc_str(t.text) + ",\"created_at\":"@ + enc_str(t.created_at)
        + ",\"kind\":"@ + enc_kind(t.kind) + ",\"state\":\""@ + state_tag(t.state)
        + "\",\"is_hidden\":"@ + enc_bool(t.is_hidden) + "}"@
}

/// What a task record reads back to.
pub open spec fn dec_todo(s: Seq<char>, i: int) -> Option<(TodoView, int)> {
    match expect(s, i, "{\"text\":"@) {
        None => None,
        Some(i1) => match dec_str(s, i1) {
            None => None,
            Some((text, i2)) => match expect(s, i2, ",\"created_at\":"@) {
                None => None,
                Some(i3) => match dec_str(s, i3) {
                    None => None,
                    Some((created_at, i4)) => match expect(s, i4, ",\"kind\":"@) {
                        None => None,
                        Some(i5) => match dec_kind(s, i5) {
                            None => None,
                            Some((kind, i6)) => match expect(s, i6, ",\"state\":\""@) {
                                None => None,
                                Some(i7) => match dec_state(s, i7) {
                                    None => None,
                                    Some((state, i8)) => match expect(s, i8,
                                        ",\"is_hidden\":"@) {
                                        None => None,
                                        Some(i9) => match dec_bool(s, i9) {
                                            None => None,
                                            Some((hidden, i10)) => match expect(s, i10,
                                                seq!['}']) {
                                                None => None,
                                                Some(i11) => Some((TodoView {
                                                    text: text,
                                                    created_at: created_at,
                                                    kind: kind,
                                                    state: state,
                                                    is_hidden: hidden,
                                                }, i11)),
                                            },
                                        },
                                    },
                                },
                            },
                        },
                    },
                },
            },
        },
    }
}

/// A written task-state tag reads back to the state.
proof fn lemma_dec_state_of_enc(s: Seq<char>, i: int, st: TodoState)
    requires
        has_at(s, i, state_tag(st) + seq!['"']),
    ensures
        dec_state(s, i) == Some((st, i + state_tag(st).len() + 1)),
{
    reveal_strlit("NoDeadline");
    reveal_strlit("InProgress");
    reveal_strlit("UpComing");
    reveal_strlit("Expired");
    lemma_has_index(s, i, state_tag(st) + seq!['"'], 0);
    match st {
        TodoState::NoDeadline => {
        },
        TodoState::InProgress => {
            lemma_expect_differs(s, i, state_tag(TodoState::NoDeadline) + seq!['"'], 0);
        },
        TodoState::UpComing => {
            lemma_expect_differs(s, i, state_tag(TodoState::NoDeadline) + seq!['"'], 0);
            lemma_expect_differs(s, i, state_tag(TodoState::InProgress) + seq!['"'], 0);
        },
        TodoState::Expired => {
            lemma_expect_differs(s, i, state_tag(TodoState::NoDeadline) + seq!['"'], 0);
            lemma_expect_differs(s, i, state_tag(TodoState::InProgress) + seq!['"'], 0);
            lemma_expect_differs(s, i, state_tag(TodoState::UpComing) + seq!['"'], 0);
        },
    }
}

/// A written truth value reads back to itself.
proof fn lemma_dec_bool_of_enc(s: Seq<char>, i: int, b: bool)
    requires
        has_at(s, i, enc_bool(b)),
    ensures
        dec_bool(s, i) == Some((b, i + enc_bool(b).len())),
{
    reveal_strlit("true");
    reveal_strlit("false");
    lemma_has_index(s, i, enc_bool(b), 0);
    if !b {
        lemma_expect_differs(s, i, "true"@, 0);
    }
}

/// A written deadline kind reads back to the kind.
proof fn lemma_dec_kind_of_enc(s: Seq<char>, i: int, k: KindView)
    requires
        has_at(s, i, enc_kind(k)),
        wf_kind(k),
    ensures
        dec_kind(s, i) == Some((k, i + enc_kind(k).len())),
{
    reveal_strlit("\"General\"");
    reveal_strlit("{\"Progress\":");
    reveal_strlit("{\"Week\":\"");
    reveal_strlit("{\"Month\":");
    reveal_strlit("{\"Once\":\"");
    reveal_strlit("\"}");
    reveal_strlit("}");
    reveal_strlit("Mon");
    reveal_strlit("Tue");
    reveal_strlit("Wed");
    reveal_strlit("Thu");
    reveal_strlit("Fri");
    reveal_strlit("Sat");
    reveal_strlit("Sun");
    match k {
        KindView::General => {
        },
        KindView::Progress(t) => {
            let l = "{\"Progress\":"@;
            assert(enc_kind(k) =~= l + (enc_str(t) + "}"@));
            lemma_has_split(s, i, l, enc_str(t) + "}"@);
            lemma_has_split(s, i + l.len(), enc_str(t), "}"@);
            lemma_has_index(s, i, l, 0);
            lemma_expect_differs(s, i, "\"General\""@, 0);
            lemma_dec_str_of_enc(s, i + l.len(), t);
            let j = i + l.len() + enc_str(t).len();
            assert(has_at(s, j, seq!['}'])) by {
                assert("}"@ =~= seq!['}']);
            }
        },
        KindView::Week(w) => {
            let l = "{\"Week\":\""@;
            assert(enc_kind(k) =~= l + ((weekday_tag(w) + seq!['"']) + seq!['}']));
            lemma_has_split(s, i, l, (weekday_tag(w) + seq!['"']) + seq!['}']);
            lemma_has_split(s, i + l.len(), weekday_tag(w) + seq!['"'], seq!['}']);
            lemma_has_split(s, i + l.len(), weekday_tag(w), seq!['"']);
            lemma_has_index(s, i, l, 0);
            lemma_has_index(s, i, l, 2);
            lemma_expect_differs(s, i, "\"General\""@, 0);
            lemma_expect_differs(s, i, "{\"Progress\":"@, 2);
            let i1 = i + l.len();
            assert(s.subrange(i1, i1 + 3) == weekday_tag(w));
            lemma_has_index(s, i1, weekday_tag(w) + seq!['"'], 3);
            crate::date::lemma_weekday_tag_parses(w);
            assert(dec_weekday(s, i1) == Some((w, i1 + 4)));
        },
        KindView::Month(m) => {
            let l = "{\"Month\":"@;
            let d = crate::chars::enc_u32(m as int);
            assert(enc_kind(k) =~= l + (d + seq!['}']));
            lemma_has_split(s, i, l, d + seq!['}']);
            lemma_has_split(s, i + l.len(), d, seq!['}']);
            lemma_has_index(s, i, l, 0);
            lemma_has_index(s, i, l, 2);
            lemma_expect_differs(s, i, "\"General\""@, 0);
            lemma_expect_differs(s, i, "{\"Progress\":"@, 2);
            lemma_expect_differs(s, i, "{\"Week\":\""@, 2);
            let i1 = i + l.len();
            lemma_has_index(s, i1 + d.len(), seq!['}'], 0);
            lemma_dec_u32_of_enc(s, i1, m);
        },
        KindView::Once(dt) => {
            let l = "{\"Once\":\""@;
            let d = enc_date(dt);
            assert(enc_kind(k) =~= l + (d + "\"}"@));
            lemma_has_split(s, i, l, d + "\"}"@);
            lemma_has_split(s, i + l.len(), d, "\"}"@);
            lemma_has_index(s, i, l, 0);
            lemma_has_index(s, i, l, 2);
            lemma_expect_differs(s, i, "\"General\""@, 0);
            lemma_expect_differs(s, i, "{\"Progress\":"@, 2);
            lemma_expect_differs(s, i, "{\"Week\":\""@, 2);
            lemma_expect_differs(s, i, "{\"Month\":"@, 2);
            let i1 = i + l.len();
            lemma_date_roundtrip(dt);
            assert(s.subrange(i1, i1 + 10) == d);
        },
    }
}

/// Writing a task record and reading it back gives the record again.
#[verifier::rlimit(100)]
pub proof fn lemma_todo_roundtrip(s: Seq<char>, i: int, t: TodoView)
    requires
        has_at(s, i, enc_todo(t)),
        wf_todo(t),
    ensures
        dec_todo(s, i) == Some((t, i + enc_todo(t).len())),
{
    reveal_strlit("{\"text\":");
    reveal_strlit(",\"created_at\":");
    reveal_strlit(",\"kind\":");
    reveal_strlit(",\"state\":\"");
    reveal_strlit("\",\"is_hidden\":");
    reveal_strlit(",\"is_hidden\":");
    reveal_strlit("}");
    let t1 = "{\"text\":"@;
    let p1 = enc_str(t.text);
    let t2 = ",\"created_at\":"@;
    let p2 = enc_str(t.created_at);
    let t3 = ",\"kind\":"@;
    let p3 = enc_kind(t.kind);
    let t4 = ",\"state\":\""@;
    let p4 = state_tag(t.state) + seq!['"'];
    let t5 = ",\"is_hidden\":"@;
    let p5 = enc_bool(t.is_hidden);
    let t6 = seq!['}'];
    assert(enc_todo(t) =~= t1 + (p1 + (t2 + (p2 + (t3 + (p3 + (t4 + ((p4 + t5) + (p5
        + t6)))))))));
    lemma_has_split(s, i, t1, p1 + (t2 + (p2 + (t3 + (p3 + (t4 + ((p4 + t5) + (p5 + t6))))))));
    let i1 = i + t1.len();
    lemma_has_split(s, i1, p1, t2 + (p2 + (t3 + (p3 + (t4 + ((p4 + t5) + (p5 + t6)))))));
    let i2 = i1 + p1.len();
    lemma_has_split(s, i2, t2, p2 + (t3 + (p3 + (t4 + ((p4 + t5) + (p5 + t6))))));
    let i3 = i2 + t2.len();
    lemma_has_split(s, i3, p2, t3 + (p3 + (t4 + ((p4 + t5) + (p5 + t6)))));
    let i4 = i3 + p2.len();
    lemma_has_split(s, i4, t3, p3 + (t4 + ((p4 + t5) + (p5 + t6))));
    let i5 = i4 + t3.len();
    lemma_has_split(s, i5, p3, t4 + ((p4 + t5) + (p5 + t6)));
    let i6 = i5 + p3.len();
    lemma_has_split(s, i6, t4, (p4 + t5) + (p5 + t6));
    let i7 = i6 + t4.len();
    lemma_has_split(s, i7, p4 + t5, p5 + t6);
    lemma_has_split(s, i7, p4, t5);
    let i8 = i7 + p4.len();
    let i9 = i8 + t5.len();
    lemma_has_split(s, i9, p5, t6);
    let i10 = i9 + p5.len();
    lemma_dec_str_of_enc(s, i1, t.text);
    lemma_dec_str_of_enc(s, i3, t.created_at);
    lemma_dec_kind_of_enc(s, i5, t.kind);
    lemma_dec_state_of_enc(s, i7, t.state);
    lemma_dec_bool_of_enc(s, i9, t.is_hidden);
    assert(expect(s, i, t1) == Some(i1));
    assert(expect(s, i2, t2) == Some(i3));
    assert(expect(s, i4, t3) == Some(i5));
    assert(expect(s, i6, t4) == Some(i7));
    assert(expect(s, i8, t5) == Some(i9));
    assert(expect(s, i10, t6) == Some(i10 + 1));
}

/// The records of a collection, separated by commas.
pub open spec fn enc_todo_items(l: Seq<TodoView>) -> Seq<char>
    decreases l.len(),
{
    if l.len() == 0 {
        Seq::empty()
    } else if l.len() == 1 {
        enc_todo(l[0])
    } else {
        enc_todo(l[0]) + seq![','] + enc_todo_items(l.drop_first())
    }
}

/// A whole task collection, as a bracketed list of records.
pub open spec fn enc_todo_list(l: Seq<TodoView>) -> Seq<char> {
    seq!['['] + enc_todo_items(l) + seq![']']
}

/// What a non-empty run of records, up to the closing bracket, reads
/// back to.
pub open spec fn dec_todo_items(s: Seq<char>, i: int) -> Option<(Seq<TodoView>, int)>
    decreases s.len() - i,
{
    match dec_todo(s, i) {
        None => None,
        Some((t, j)) => if i < j && j < s.len() {
            if s[j] == ',' {
                match dec_todo_items(s, j + 1) {
                    None => None,
                    Some((rest, e)) => Some((seq![t] + rest, e)),
                }
            } else if s[j] == ']' {
                Some((seq![t], j + 1))
            } else {
                None
            }
        } else {
            None
        },
    }
}

/// What a whole task collection reads back to.
pub open spec fn dec_todo_list(s: Seq<char>, i: int) -> Option<(Seq<TodoView>, int)> {
    if 0 <= i && i < s.len() && s[i] == '[' {
        if i + 1 < s.len() && s[i + 1] == ']' {
            Some((Seq::empty(), i + 2))
        } else {
            dec_todo_items(s, i + 1)
        }
    } else {
        None
    }
}

/// A written record is never empty and opens with a brace.
proof fn lemma_enc_todo_shape(t: TodoView)
    ensures
        enc_todo(t).len() >= 8,
        enc_todo(t)[0] == '{',
{
    reveal_strlit("{\"text\":");
    reveal_strlit("\",\"is_hidden\":");
    reveal_strlit(",\"is_hidden\":");
    reveal_strlit("}");
    assert(enc_todo(t) =~= "{\"text\":"@ + (enc_str(t.text) + (",\"created_at\":"@
        + (enc_str(t.created_at) + (",\"kind\":"@ + (enc_kind(t.kind) + (",\"state\":\""@
        + ((state_tag(t.state) + seq!['"']) + (",\"is_hidden\":"@ + (enc_bool(t.is_hidden)
        + seq!['}']))))))))));
    assert(enc_todo(t)[0] == "{\"text\":"@[0]);
}

#[verifier::rlimit(100)]
proof fn lemma_dec_todo_items_of_enc(s: Seq<char>, i: int, l: Seq<TodoView>)
    requires
        l.len() >= 1,
        forall|k: int| 0 <= k < l.len() ==> wf_todo(#[trigger] l[k]),
        has_at(s, i, enc_todo_items(l) + seq![']']),
    ensures
        dec_todo_items(s, i) == Some((l, i + enc_todo_items(l).len() + 1)),
    decreases l.len(),
{
    if l.len() == 1 {
        lemma_has_split(s, i, enc_todo(l[0]), seq![']']);
        lemma_todo_roundtrip(s, i, l[0]);
        lemma_enc_todo_shape(l[0]);
        let j = i + enc_todo(l[0]).len();
        lemma_has_index(s, j, seq![']'], 0);
        assert(seq![l[0]] =~= l);
    } else {
        let rest = l.drop_first();
        assert(enc_todo_items(l) =~= enc_todo(l[0]) + seq![','] + enc_todo_items(rest));
        assert(enc_todo_items(l) + seq![']'] =~= enc_todo(l[0]) + (seq![','] + (
            enc_todo_items(rest) + seq![']'])));
        lemma_has_split(s, i, enc_todo(l[0]), seq![','] + (enc_todo_items(rest)
            + seq![']']));
        lemma_todo_roundtrip(s, i, l[0]);
        let j = i + enc_todo(l[0]).len();
        lemma_has_split(s, j, seq![','], enc_todo_items(rest) + seq![']']);
        lemma_has_index(s, j, seq![','], 0);
        lemma_enc_todo_shape(l[0]);
        assert(forall|k: int| 0 <= k < rest.len() ==> wf_todo(#[trigger] rest[k])) by {
            assert(forall|k: int| 0 <= k < rest.len() ==> rest[k] == l[k + 1]);
        }
        lemma_dec_todo_items_of_enc(s, j + 1, rest);
        assert(seq![l[0]] + rest =~= l);
    }
}

/// Writing a task collection and reading it back gives the records
/// again.
pub proof fn lemma_todo_list_roundtrip(s: Seq<char>, i: int, l: Seq<TodoView>)
    requires
        forall|k: int| 0 <= k < l.len() ==> wf_todo(#[trigger] l[k]),
        has_at(s, i, enc_todo_list(l)),
    ensures
        dec_todo_list(s, i) == Some((l, i + enc_todo_list(l).len())),
{
    assert(enc_todo_list(l) =~= seq!['['] + (enc_todo_items(l) + seq![']']));
    lemma_has_split(s, i, seq!['['], enc_todo_items(l) + seq![']']);
    lemma_has_index(s, i, seq!['['], 0);
    if l.len() == 0 {
        assert(enc_todo_items(l) + seq![']'] =~= seq![']']);
        lemma_has_index(s, i + 1, seq![']'], 0);
    } else {
        lemma_has_split(s, i + 1, enc_todo_items(l), seq![']']);
        lemma_enc_todo_shape(l[0]);
        assert(s[i + 1] == '{') by {
            if l.len() == 1 {
                assert(enc_todo_items(l) == enc_todo(l[0]));
            }
            assert(enc_todo_items(l)[0] == enc_todo(l[0])[0]);
            lemma_has_index(s, i + 1, enc_todo_items(l), 0);
        }
        lemma_dec_todo_items_of_enc(s, i + 1, l);
    }
}

/// The views of the records in a collection.
pub open spec fn views_of(l: Seq<Todo>) -> Seq<TodoView> {
    l.map_values(|t: Todo| t@)
}

/// Appends a sync state in its persisted form.
pub fn push_sync_state(out: &mut String, st: &SyncState)
    requires
        valid_datetime(st@.last_save_at),
    ensures
        final(out)@ == old(out)@ + enc_sync_state(st@),
{
    out.append("{\"id\":");
    push_json_str(out, st.id.as_str());
    out.append(",\"last_sync_kind\":\"");
    match st.last_sync_kind {
        SyncAction::Init => out.append("Init"),
        SyncAction::LocalSave => out.append("LocalSave"),
        SyncAction::UploadToServer => out.append("UploadToServer"),
        SyncAction::DownloadFromServer => out.append("DownloadFromServer"),
    }
    out.append("\",\"last_save_at\":\"");
    push_datetime(out, &st.last_save_at, 'T');
    out.append("\"}");
    assert(out@ =~= old(out)@ + enc_sync_state(st@));
}

/// A sync state in its persisted form.
pub fn encode_sync_state(st: &SyncState) -> (r: String)
    requires
        valid_datetime(st@.last_save_at),
    ensures
        r@ == enc_sync_state(st@),
{
    let mut out = String::new();
    push_sync_state(&mut out, st);
    assert(out@ =~= enc_sync_state(st@));
    out
}

fn push_kind(out: &mut String, k: &crate::todo::TodoKind)
    requires
        wf_kind(k@),
    ensures
        final(out)@ == old(out)@ + enc_kind(k@),
{
    match k {
        crate::todo::TodoKind::General => {
            out.append("\"General\"");
            assert(out@ =~= old(out)@ + enc_kind(k@));
        },
        crate::todo::TodoKind::Progress(t) => {
            out.append("{\"Progress\":");
            push_json_str(out, t.as_str());
            out.append("}");
            assert(out@ =~= old(out)@ + enc_kind(k@));
        },
        crate::todo::TodoKind::Week(w) => {
            out.append("{\"Week\":\"");
            out.append(w.name());
            out.append("\"}");
            assert(out@ =~= old(out)@ + enc_kind(k@));
        },
        crate::todo::TodoKind::Month(m) => {
            out.append("{\"Month\":");
            crate::chars::push_u32(out, *m);
            out.append("}");
            assert(out@ =~= old(out)@ + enc_kind(k@));
        },
        crate::todo::TodoKind::Once(d) => {
            out.append("{\"Once\":\"");
            crate::date::push_date(out, d);
            out.append("\"}");
            assert(out@ =~= old(out)@ + enc_kind(k@));
        },
    }
}

/// Appends one record in its persisted form.
pub fn push_todo(out: &mut String, t: &Todo)
    requires
        wf_todo(t@),
    ensures
        final(out)@ == old(out)@ + enc_todo(t@),
{
    out.append("{\"text\":");
    push_json_str(out, t.text.as_str());
    out.append(",\"created_at\":");
    push_json_str(out, t.created_at.as_str());
    out.append(",\"kind\":");
    push_kind(out, &t.kind);
    out.append(",\"state\":\"");
    match t.state {
        TodoState::NoDeadline => out.append("NoDeadline"),
        TodoState::InProgress => out.append("InProgress"),
        TodoState::UpComing => out.append("UpComing"),
        TodoState::Expired => out.append("Expired"),
    }
    out.append("\",\"is_hidden\":");
    if t.is_hidden {
        out.append("true");
    } else {
        out.append("false");
    }
    out.append("}");
    assert(out@ =~= old(out)@ + enc_todo(t@));
}

/// When a run of records grows by one, its written form grows by that
/// record, after a comma unless it is the first.
proof fn lemma_enc_items_snoc(l: Seq<TodoView>, t: TodoView)
    ensures
        l.len() == 0 ==> enc_todo_items(l.push(t)) == enc_todo(t),
        l.len() >= 1 ==> enc_todo_items(l.push(t)) == enc_todo_items(l) + seq![',']
            + enc_todo(t),
    decreases l.len(),
{
    let lp = l.push(t);
    if l.len() == 0 {
        assert(lp.len() == 1);
        assert(lp[0] == t);
    } else if l.len() == 1 {
        assert(lp.drop_first() =~= seq![t]);
        assert(enc_todo_items(lp) == enc_todo(lp[0]) + seq![','] + enc_todo_items(
            lp.drop_first()));
        assert(enc_todo_items(seq![t]) == enc_todo(seq![t][0]));
        assert(lp[0] == l[0]);
    } else {
        assert(lp.drop_first() =~= l.drop_first().push(t));
        lemma_enc_items_snoc(l.drop_first(), t);
        assert(enc_todo_items(lp) == enc_todo(l[0]) + seq![','] + (enc_todo_items(
            l.drop_first()) + seq![','] + enc_todo(t)));
        assert(enc_todo(l[0]) + seq![','] + (enc_todo_items(l.drop_first()) + seq![',']
            + enc_todo(t)) =~= (enc_todo(l[0]) + seq![','] + enc_todo_items(
            l.drop_first())) + seq![','] + enc_todo(t));
    }
}

/// A whole collection in its persisted form.
pub fn encode_todo_list(v: &Vec<Todo>) -> (r: String)
    requires
        forall|k: int| 0 <= k < v@.len() ==> wf_todo(#[trigger] v@[k]@),
    ensures
        r@ == enc_todo_list(views_of(v@)),
{
    let ghost l = views_of(v@);
    let mut out = String::new();
    push_char(&mut out, '[');
    let n = v.len();
    let mut k: usize = 0;
    while k < n
        invariant
            0 <= k <= n,
            n == v@.len(),
            l == views_of(v@),
            l.len() == n,
            forall|m: int| 0 <= m < v@.len() ==> wf_todo(#[trigger] v@[m]@),
            forall|m: int| 0 <= m < n ==> l[m] == v@[m]@,
            out@ == seq!['['] + enc_todo_items(l.take(k as int)),
        decreases n - k,
    {
        if k > 0 {
            push_char(&mut out, ',');
        }
        push_todo(&mut out, &v[k]);
        proof {
            lemma_enc_items_snoc(l.take(k as int), l[k as int]);
            assert(l.take(k as int).push(l[k as int]) =~= l.take(k + 1int));
            if k == 0 {
                assert(out@ =~= seq!['['] + enc_todo_items(l.take(k + 1int)));
            } else {
                assert(out@ =~= seq!['['] + enc_todo_items(l.take(k + 1int)));
            }
        }
        k = k + 1;
    }
    push_char(&mut out, ']');
    proof {
        assert(l.take(n as int) =~= l);
        assert(out@ =~= enc_todo_list(l));
    }
    out
}

/// Checks for one fixed character; the position after it.
fn expect_char(s: &str, i: usize, c: char) -> (r: Option<usize>)
    requires
        i <= s@.len() <= usize::MAX,
    ensures
        r is Some <==> expect(s@, i as int, seq![c]) is Some,
        r is Some ==> r.unwrap() == i + 1 && i < r.unwrap() <= s@.len(),
{
    let n = s.unicode_len();
    if i < n && s.get_char(i) == c {
        proof {
            assert(s@.subrange(i as int, i + 1int) =~= seq![c]);
        }
        Some(i + 1)
    } else {
        proof {
            if has_at(s@, i as int, seq![c]) {
                lemma_has_index(s@, i as int, seq![c], 0);
            }
        }
        None
    }
}

/// Reads an operation-kind tag with its closing quote.
fn read_action(s: &str, i: usize) -> (r: Option<(SyncAction, usize)>)
    requires
        i <= s@.len() <= usize::MAX,
    ensures
        r is Some <==> dec_action(s@, i as int) is Some,
        r is Some ==> r.unwrap().0 == dec_action(s@, i as int).unwrap().0 && r.unwrap().1
            == dec_action(s@, i as int).unwrap().1 && i <= r.unwrap().1 <= s@.len(),
{
    proof {
        reveal_strlit("Init");
        reveal_strlit("LocalSave");
        reveal_strlit("UploadToServer");
        reveal_strlit("DownloadFromServer");
        reveal_strlit("Init\"");
        reveal_strlit("LocalSave\"");
        reveal_strlit("UploadToServer\"");
        reveal_strlit("DownloadFromServer\"");
        assert("Init\""@ =~= action_tag(SyncAction::Init) + seq!['"']);
        assert("LocalSave\""@ =~= action_tag(SyncAction::LocalSave) + seq!['"']);
        assert("UploadToServer\""@ =~= action_tag(SyncAction::UploadToServer) + seq!['"']);
        assert("DownloadFromServer\""@ =~= action_tag(SyncAction::DownloadFromServer)
            + seq!['"']);
    }
    if let Some(j) = expect_lit(s, i, "Init\"") {
        Some((SyncAction::Init, j))
    } else if let Some(j) = expect_lit(s, i, "LocalSave\"") {
        Some((SyncAction::LocalSave, j))
    } else if let Some(j) = expect_lit(s, i, "UploadToServer\"") {
        Some((SyncAction::UploadToServer, j))
    } else if let Some(j) = expect_lit(s, i, "DownloadFromServer\"") {
        Some((SyncAction::DownloadFromServer, j))
    } else {
        None
    }
}

/// Reads a task-state tag with its closing quote.
fn read_state(s: &str, i: usize) -> (r: Option<(TodoState, usize)>)
    requires
        i <= s@.len() <= usize::MAX,
    ensures
        r is Some <==> dec_state(s@, i as int) is Some,
        r is Some ==> r.unwrap().0 == dec_state(s@, i as int).unwrap().0 && r.unwrap().1
            == dec_state(s@, i as int).unwrap().1 && i <= r.unwrap().1 <= s@.len(),
{
    proof {
        reveal_strlit("NoDeadline");
        reveal_strlit("InProgress");
        reveal_strlit("UpComing");
        reveal_strlit("Expired");
        reveal_strlit("NoDeadline\"");
        reveal_strlit("InProgress\"");
        reveal_strlit("UpComing\"");
        reveal_strlit("Expired\"");
        assert("NoDeadline\""@ =~= state_tag(TodoState::NoDeadline) + seq!['"']);
        assert("InProgress\""@ =~= state_tag(TodoState::InProgress) + seq!['"']);
        assert("UpComing\""@ =~= state_tag(TodoState::UpComing) + seq!['"']);
        assert("Expired\""@ =~= state_tag(TodoState::Expired) + seq!['"']);
    }
    if let Some(j) = expect_lit(s, i, "NoDeadline\"") {
        Some((TodoState::NoDeadline, j))
    } else if let Some(j) = expect_lit(s, i, "InProgress\"") {
        Some((TodoState::InProgress, j))
    } else if let Some(j) = expect_lit(s, i, "UpComing\"") {
        Some((TodoState::UpComing, j))
    } else if let Some(j) = expect_lit(s, i, "Expired\"") {
        Some((TodoState::Expired, j))
    } else {
        None
    }
}

fn read_bool(s: &str, i: usize) -> (r: Option<(bool, usize)>)
    requires
        i <= s@.len() <= usize::MAX,
    ensures
        r is Some <==> dec_bool(s@, i as int) is Some,
        r is Some ==> r.unwrap().0 == dec_bool(s@, i as int).unwrap().0 && r.unwrap().1
            == dec_bool(s@, i as int).unwrap().1 && i <= r.unwrap().1 <= s@.len(),
{
    if let Some(j) = expect_lit(s, i, "true") {
        Some((true, j))
    } else if let Some(j) = expect_lit(s, i, "false") {
        Some((false, j))
    } else {
        None
    }
}

/// Reads a weekday tag with its closing quote.
fn read_weekday(s: &str, i: usize) -> (r: Option<(crate::date::Weekday, usize)>)
    requires
        i <= s@.len() <= usize::MAX,
    ensures
        r is Some <==> dec_weekday(s@, i as int) is Some,
        r is Some ==> r.unwrap().0 == dec_weekday(s@, i as int).unwrap().0 && r.unwrap().1
            == dec_weekday(s@, i as int).unwrap().1 && i < r.unwrap().1 <= s@.len(),
{
    let n = s.unicode_len();
    if n - i < 4 {
        return None;
    }
    if s.get_char(i + 3) != '"' {
        return None;
    }
    match crate::date::Weekday::parse(s.substring_char(i, i + 3)) {
        Some(w) => Some((w, i + 4)),
        None => None,
    }
}

/// Reads a deadline kind.
fn read_kind(s: &str, i: usize) -> (r: Option<(crate::todo::TodoKind, usize)>)
    requires
        i <= s@.len() <= usize::MAX,
    ensures
        r is Some <==> dec_kind(s@, i as int) is Some,
        r is Some ==> r.unwrap().0@ == dec_kind(s@, i as int).unwrap().0 && r.unwrap().1
            == dec_kind(s@, i as int).unwrap().1 && i <= r.unwrap().1 <= s@.len(),
{
    let n = s.unicode_len();
    if let Some(j) = expect_lit(s, i, "\"General\"") {
        return Some((crate::todo::TodoKind::General, j));
    }
    if let Some(i1) = expect_lit(s, i, "{\"Progress\":") {
        return match read_json_str(s, i1) {
            None => None,
            Some((t, j)) => match expect_char(s, j, '}') {
                None => None,
                Some(j1) => Some((crate::todo::TodoKind::Progress(t), j1)),
            },
        };
    }
    if let Some(i1) = expect_lit(s, i, "{\"Week\":\"") {
        return match read_weekday(s, i1) {
            None => None,
            Some((w, j)) => match expect_char(s, j, '}') {
                None => None,
                Some(j1) => Some((crate::todo::TodoKind::Week(w), j1)),
            },
        };
    }
    if let Some(i1) = expect_lit(s, i, "{\"Month\":") {
        return match read_u32(s, i1) {
            None => None,
            Some((m, j)) => match expect_char(s, j, '}') {
                None => None,
                Some(j1) => Some((crate::todo::TodoKind::Month(m), j1)),
            },
        };
    }
    if let Some(i1) = expect_lit(s, i, "{\"Once\":\"") {
        if n - i1 < 10 {
            return None;
        }
        let d = match crate::date::Date::parse(s.substring_char(i1, i1 + 10)) {
            Some(d) => d,
            None => {
                return None;
            },
        };
        return match expect_lit(s, i1 + 10, "\"}") {
            None => None,
            Some(j1) => Some((crate::todo::TodoKind::Once(d), j1)),
        };
    }
    None
}

/// Reads one record.
fn read_todo(s: &str, i: usize) -> (r: Option<(Todo, usize)>)
    requires
        i <= s@.len() <= usize::MAX,
    ensures
        r is Some <==> dec_todo(s@, i as int) is Some,
        r is Some ==> r.unwrap().0@ == dec_todo(s@, i as int).unwrap().0 && r.unwrap().1
            == dec_todo(s@, i as int).unwrap().1 && i < r.unwrap().1 <= s@.len(),
{
    let i1 = match expect_lit(s, i, "{\"text\":") {
        Some(j) => j,
        None => {
            return None;
        },
    };
    proof {
        reveal_strlit("{\"text\":");
    }
    let (text, i2) = match read_json_str(s, i1) {
        Some(p) => p,
        None => {
            return None;
        },
    };
    let i3 = match expect_lit(s, i2, ",\"created_at\":") {
        Some(j) => j,
        None => {
            return None;
        },
    };
    let (created_at, i4) = match read_json_str(s, i3) {
        Some(p) => p,
        None => {
            return None;
        },
    };
    let i5 = match expect_lit(s, i4, ",\"kind\":") {
        Some(j) => j,
        None => {
            return None;
        },
    };
    let (kind, i6) = match read_kind(s, i5) {
        Some(p) => p,
        None => {
            return None;
        },
    };
    let i7 = match expect_lit(s, i6, ",\"state\":\"") {
        Some(j) => j,
        None => {
            return None;
        },
    };
    let (state, i8) = match read_state(s, i7) {
        Some(p) => p,
        None => {
            return None;
        },
    };
    let i9 = match expect_lit(s, i8, ",\"is_hidden\":") {
        Some(j) => j,
        None => {
            return None;
        },
    };
    let (hidden, i10) = match read_bool(s, i9) {
        Some(p) => p,
        None => {
            return None;
        },
    };
    let i11 = match expect_char(s, i10, '}') {
        Some(j) => j,
        None => {
            return None;
        },
    };
    Some((Todo { text, created_at, kind, state, is_hidden: hidden }, i11))
}

/// Reads a non-empty run of records up to the closing bracket.
fn read_todo_items(s: &str, i: usize) -> (r: Option<(Vec<Todo>, usize)>)
    requires
        i <= s@.len() <= usize::MAX,
    ensures
        r is Some <==> dec_todo_items(s@, i as int) is Some,
        r is Some ==> views_of(r.unwrap().0@) == dec_todo_items(s@, i as int).unwrap().0
            && r.unwrap().1 == dec_todo_items(s@, i as int).unwrap().1,
    decreases s@.len() - i,
{
    let n = s.unicode_len();
    let (t, j) = match read_todo(s, i) {
        Some(p) => p,
        None => {
            return None;
        },
    };
    if j >= n {
        return None;
    }
    let c = s.get_char(j);
    if c == ',' {
        match read_todo_items(s, j + 1) {
            None => None,
            Some((mut v, e)) => {
                v.insert(0, t);
                proof {
                    let spec_rest = dec_todo_items(s@, j + 1int).unwrap().0;
                    assert(views_of(v@) =~= seq![t@] + spec_rest) by {
                        assert(v@[0] == t);
                        assert(forall|m: int| 0 <= m < spec_rest.len() ==> views_of(
                            v@)[m + 1] == spec_rest[m]);
                    }
                }
                Some((v, e))
            },
        }
    } else if c == ']' {
        let mut v: Vec<Todo> = Vec::new();
        v.push(t);
        proof {
            assert(views_of(v@) =~= seq![t@]);
        }
        Some((v, j + 1))
    } else {
        None
    }
}

/// Reads a whole collection.
fn read_todo_list(s: &str, i: usize) -> (r: Option<(Vec<Todo>, usize)>)
    requires
        i <= s@.len() <= usize::MAX,
    ensures
        r is Some <==> dec_todo_list(s@, i as int) is Some,
        r is Some ==> views_of(r.unwrap().0@) == dec_todo_list(s@, i as int).unwrap().0
            && r.unwrap().1 == dec_todo_list(s@, i as int).unwrap().1,
{
    let n = s.unicode_len();
    if i < n && s.get_char(i) == '[' {
        if i + 1 < n && s.get_char(i + 1) == ']' {
            let v: Vec<Todo> = Vec::new();
            proof {
                assert(views_of(v@) =~= Seq::<TodoView>::empty());
            }
            Some((v, i + 2))
        } else {
            read_todo_items(s, i + 1)
        }
    } else {
        None
    }
}

/// Skips an optional fractional-seconds tail.
fn skip_fraction(s: &str, i: usize) -> (r: usize)
    requires
        i <= s@.len() <= usize::MAX,
    ensures
        r == frac_end(s@, i as int),
        i <= r <= s@.len(),
{
    let n = s.unicode_len();
    proof {
        lemma_digit_run_props(s@, i as int);
    }
    if i < n && s.get_char(i) == '.' {
        proof {
            lemma_digit_run_props(s@, i + 1int);
        }
        if i + 1 < n && is_digit_exec(s.get_char(i + 1)) {
            let mut j: usize = i + 1;
            while j < n && is_digit_exec(s.get_char(j))
                invariant
                    i + 1 <= j <= n,
                    n == s@.len() <= usize::MAX,
                    forall|k: int| i + 1 <= k < j ==> is_digit(#[trigger] s@[k]),
                decreases n - j,
            {
                j = j + 1;
            }
            proof {
                lemma_digit_run_fixed(s@, i + 1int, j as int);
            }
            j
        } else {
            i
        }
    } else {
        i
    }
}

/// Reads a persisted sync state from one position.
fn read_sync_state(s: &str, i: usize) -> (r: Option<(SyncState, usize)>)
    requires
        i <= s@.len() <= usize::MAX,
    ensures
        r is Some <==> dec_sync_state(s@, i as int) is Some,
        r is Some ==> r.unwrap().0@ == dec_sync_state(s@, i as int).unwrap().0
            && r.unwrap().1 == dec_sync_state(s@, i as int).unwrap().1,
{
    let n = s.unicode_len();
    let i1 = match expect_lit(s, i, "{\"id\":") {
        Some(j) => j,
        None => {
            return None;
        },
    };
    let (id, i2) = match read_json_str(s, i1) {
        Some(p) => p,
        None => {
            return None;
        },
    };
    let i3 = match expect_lit(s, i2, ",\"last_sync_kind\":\"") {
        Some(j) => j,
        None => {
            return None;
        },
    };
    let (a, i4) = match read_action(s, i3) {
        Some(p) => p,
        None => {
            return None;
        },
    };
    let i5 = match expect_lit(s, i4, ",\"last_save_at\":\"") {
        Some(j) => j,
        None => {
            return None;
        },
    };
    if n - i5 < 19 {
        return None;
    }
    let dt = match crate::date::DateTime::parse(s.substring_char(i5, i5 + 19), 'T') {
        Some(d) => d,
        None => {
            return None;
        },
    };
    let after_frac = skip_fraction(s, i5 + 19);
    let i6 = match expect_lit(s, after_frac, "\"}") {
        Some(j) => j,
        None => {
            return None;
        },
    };
    Some((SyncState { id, last_sync_kind: a, last_save_at: dt }, i6))
}

/// Reads a whole persisted sync state; anything after it is refused.
pub fn decode_sync_state(s: &str) -> (r: Option<SyncState>)
    requires
        s@.len() <= usize::MAX,
    ensures
        r is Some <==> (dec_sync_state(s@, 0) is Some && dec_sync_state(s@,
            0).unwrap().1 == s@.len()),
        r is Some ==> r.unwrap()@ == dec_sync_state(s@, 0).unwrap().0,
{
    let n = s.unicode_len();
    match read_sync_state(s, 0) {
        Some((st, e)) => {
            if e == n {
                Some(st)
            } else {
                None
            }
        },
        None => None,
    }
}

/// Reads a whole persisted collection; anything after it is refused.
pub fn decode_todo_list(s: &str) -> (r: Option<Vec<Todo>>)
    requires
        s@.len() <= usize::MAX,
    ensures
        r is Some <==> (dec_todo_list(s@, 0) is Some && dec_todo_list(s@, 0).unwrap().1
            == s@.len()),
        r is Some ==> views_of(r.unwrap()@) == dec_todo_list(s@, 0).unwrap().0,
{
    let n = s.unicode_len();
    match read_todo_list(s, 0) {
        Some((v, e)) => {
            if e == n {
                Some(v)
            } else {
                None
            }
        },
        None => None,
    }
}

/// Writing a sync state and reading the text back gives the state
/// again, whole.
pub proof fn lemma_sync_state_codec_roundtrip(v: SyncStateView)
    requires
        valid_datetime(v.last_save_at),
    ensures
        dec_sync_state(enc_sync_state(v), 0) == Some((v, enc_sync_state(v).len() as int)),
{
    let s = enc_sync_state(v);
    assert(s.subrange(0, s.len() as int) =~= s);
    lemma_sync_state_roundtrip(s, 0, v);
}

/// Writing a task collection and reading the text back gives the
/// records again, whole.
pub proof fn lemma_todo_list_codec_roundtrip(l: Seq<TodoView>)
    requires
        forall|k: int| 0 <= k < l.len() ==> wf_todo(#[trigger] l[k]),
    ensures
        dec_todo_list(enc_todo_list(l), 0) == Some((l, enc_todo_list(l).len() as int)),
{
    let s = enc_todo_list(l);
    assert(s.subrange(0, s.len() as int) =~= s);
    lemma_todo_list_roundtrip(s, 0, l);
}

} // verus!
