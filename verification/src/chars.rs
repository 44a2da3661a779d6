//! Character-level helpers: building strings, digits and decimal numbers.
//!
//! The persisted format and the input grammar both read and write decimal
//! numbers; this module gives them one spec-level decimal encoding with
//! its round-trip lemmas, and the one primitive the library needs for
//! building strings character by character.

use vstd::prelude::*;

verus! {

/// Relies on String::push: appends exactly the given character.
#[verifier::external_body]
pub(crate) fn push_char(s: &mut String, c: char)
    ensures
        final(s)@ == old(s)@.push(c),
{
    s.push(c)
}

pub open spec fn is_digit(c: char) -> bool {
    48 <= c as u32 <= 57
}

/// Numeric value of a decimal digit character.
pub open spec fn digit_val(c: char) -> int {
    c as u32 - 48
}

pub open spec fn all_digits(s: Seq<char>) -> bool {
    forall|i: int| 0 <= i < s.len() ==> is_digit(#[trigger] s[i])
}

/// Value of a digit string, most significant digit first.
pub open spec fn digits_val(s: Seq<char>) -> int
    decreases s.len(),
{
    if s.len() == 0 {
        0
    } else {
        digits_val(s.drop_last()) * 10 + digit_val(s.last())
    }
}

/// The digit character of a value below ten.
pub open spec fn spec_digit_char(d: int) -> char {
    if d == 0 { '0' }
    else if d == 1 { '1' }
    else if d == 2 { '2' }
    else if d == 3 { '3' }
    else if d == 4 { '4' }
    else if d == 5 { '5' }
    else if d == 6 { '6' }
    else if d == 7 { '7' }
    else if d == 8 { '8' }
    else { '9' }
}

/// Minimal decimal encoding of a number: no sign, no leading zero.
pub open spec fn enc_u32(n: int) -> Seq<char>
    decreases n,
{
    if n < 10 {
        seq![spec_digit_char(n)]
    } else {
        enc_u32(n / 10).push(spec_digit_char(n % 10))
    }
}

pub proof fn lemma_digit_char_val(d: int)
    requires
        0 <= d <= 9,
    ensures
        is_digit(spec_digit_char(d)),
        digit_val(spec_digit_char(d)) == d,
{
}

/// The decimal encoding is made of digits, starts with a nonzero digit
/// unless it encodes a single-digit value, and reads back to its value.
pub proof fn lemma_enc_u32_val(n: int)
    requires
        0 <= n,
    ensures
        enc_u32(n).len() >= 1,
        all_digits(enc_u32(n)),
        digits_val(enc_u32(n)) == n,
        n >= 1 ==> enc_u32(n)[0] != '0',
    decreases n,
{
    if n < 10 {
        lemma_digit_char_val(n);
        assert(enc_u32(n).len() == 1);
        assert(enc_u32(n).last() == spec_digit_char(n));
        assert(enc_u32(n).drop_last() =~= Seq::<char>::empty());
        assert(digits_val(enc_u32(n)) == digits_val(enc_u32(n).drop_last()) * 10 + digit_val(
            enc_u32(n).last()));
        assert(digits_val(Seq::<char>::empty()) == 0);
    } else {
        lemma_enc_u32_val(n / 10);
        lemma_digit_char_val(n % 10);
        assert(enc_u32(n).drop_last() =~= enc_u32(n / 10));
        assert(enc_u32(n).last() == spec_digit_char(n % 10));
        assert(digits_val(enc_u32(n)) == digits_val(enc_u32(n / 10)) * 10 + digit_val(
            spec_digit_char(n % 10)));
        assert(n / 10 * 10 + n % 10 == n);
        assert(enc_u32(n)[0] == enc_u32(n / 10)[0]);
    }
}

/// A longer digit string never reads back to a smaller value.
pub proof fn lemma_digits_val_prefix_le(s: Seq<char>, i: int)
    requires
        all_digits(s),
        0 <= i <= s.len(),
    ensures
        digits_val(s.subrange(0, i)) <= digits_val(s),
        digits_val(s) >= 0,
    decreases s.len() - i,
{
    if i == s.len() {
        assert(s.subrange(0, i) =~= s);
        lemma_digits_val_nonneg(s);
    } else {
        lemma_digits_val_prefix_le(s, i + 1);
        let t = s.subrange(0, i + 1);
        assert(t.drop_last() =~= s.subrange(0, i));
        assert(t.last() == s[i]);
        lemma_digits_val_nonneg(s.subrange(0, i));
    }
}

pub proof fn lemma_digits_val_nonneg(s: Seq<char>)
    requires
        all_digits(s),
    ensures
        digits_val(s) >= 0,
    decreases s.len(),
{
    if s.len() > 0 {
        assert forall|i: int| 0 <= i < s.drop_last().len() implies is_digit(
            #[trigger] s.drop_last()[i]) by {
            assert(s.drop_last()[i] == s[i]);
        }
        lemma_digits_val_nonneg(s.drop_last());
    }
}

/// The digit character of a value below ten, as executable code.
pub fn digit_char(d: u32) -> (c: char)
    requires
        d <= 9,
    ensures
        c == spec_digit_char(d as int),
{
    if d == 0 { '0' }
    else if d == 1 { '1' }
    else if d == 2 { '2' }
    else if d == 3 { '3' }
    else if d == 4 { '4' }
    else if d == 5 { '5' }
    else if d == 6 { '6' }
    else if d == 7 { '7' }
    else if d == 8 { '8' }
    else { '9' }
}

/// Appends the minimal decimal form of `n`.
pub fn push_u32(out: &mut String, n: u32)
    ensures
        final(out)@ == old(out)@ + enc_u32(n as int),
    decreases n,
{
    if n < 10 {
        push_char(out, digit_char(n));
        assert(out@ =~= old(out)@ + enc_u32(n as int));
    } else {
        push_u32(out, n / 10);
        push_char(out, digit_char(n % 10));
        assert(out@ =~= old(out)@ + enc_u32(n as int));
    }
}

/// The minimal decimal form of `n`, on its own.
pub fn u32_to_string(n: u32) -> (r: String)
    ensures
        r@ == enc_u32(n as int),
{
    let mut out = String::new();
    push_u32(&mut out, n);
    assert(out@ =~= enc_u32(n as int));
    out
}

/// The digits of a number literal: what stands after the optional plus
/// sign.
pub open spec fn sign_tail(s: Seq<char>) -> Seq<char> {
    if s.len() >= 1 && s[0] == '+' {
        s.subrange(1, s.len() as int)
    } else {
        s
    }
}

/// What `"…".parse::<u32>()` accepts: an optional plus sign, then one
/// or more decimal digits whose value fits.
pub open spec fn spec_parse_u32(s: Seq<char>) -> Option<u32> {
    let t = sign_tail(s);
    if t.len() >= 1 && all_digits(t) && digits_val(t) <= 4294967295 {
        Some(digits_val(t) as u32)
    } else {
        None
    }
}

/// Reads a decimal number with an optional leading plus sign; rejects
/// anything else, and values that do not fit.
pub fn parse_u32(s: &str) -> (r: Option<u32>)
    ensures
        r == spec_parse_u32(s@),
{
    let n = s.unicode_len();
    let start: usize = if n >= 1 && s.get_char(0) == '+' {
        1
    } else {
        0
    };
    let ghost t = sign_tail(s@);
    assert(t =~= s@.subrange(start as int, n as int));
    if start == n {
        return None;
    }
    let mut acc: u64 = 0;
    let mut i: usize = start;
    while i < n
        invariant
            start <= i <= n,
            n == s@.len(),
            t == sign_tail(s@),
            t == s@.subrange(start as int, n as int),
            acc <= 4294967295,
            all_digits(s@.subrange(start as int, i as int)),
            acc == digits_val(s@.subrange(start as int, i as int)),
        decreases n - i,
    {
        let c = s.get_char(i);
        let cv = c as u32;
        let ghost pre = s@.subrange(start as int, i as int);
        let ghost ext = s@.subrange(start as int, i + 1int);
        proof {
            assert(ext.drop_last() =~= pre);
            assert(ext.last() == s@[i as int]);
        }
        if cv < 48 || cv > 57 {
            proof {
                assert(t[i - start] == s@[i as int]);
                assert(!all_digits(t));
            }
            return None;
        }
        let d = cv - 48;
        let next = acc * 10 + d as u64;
        if next > 4294967295 {
            proof {
                assert(digits_val(ext) == next);
                if all_digits(t) {
                    lemma_digits_val_prefix_le(t, i + 1 - start as int);
                    assert(ext =~= t.subrange(0, i + 1 - start as int));
                    assert(digits_val(t) > 4294967295);
                }
            }
            return None;
        }
        acc = next;
        i = i + 1;
    }
    assert(t =~= s@.subrange(start as int, i as int));
    Some(acc as u32)
}

/// Lower-case image of a character under ASCII case folding, as a code
/// point number.
pub open spec fn lower_of(c: char) -> u32 {
    if 65 <= c as u32 <= 90 {
        (c as u32 + 32) as u32
    } else {
        c as u32
    }
}

/// The two sequences are equal under ASCII case folding of the first.
pub open spec fn ieq(s: Seq<char>, t: Seq<char>) -> bool {
    s.len() == t.len() && forall|i: int| 0 <= i < s.len() ==> lower_of(#[trigger] s[i])
        == t[i] as u32
}

/// Compares `s` with the lower-case pattern `t`, folding ASCII case.
pub fn matches_folded(s: &str, t: &str) -> (r: bool)
    ensures
        r == ieq(s@, t@),
{
    let n = s.unicode_len();
    if n != t.unicode_len() {
        return false;
    }
    let mut i: usize = 0;
    while i < n
        invariant
            0 <= i <= n,
            n == s@.len(),
            n == t@.len(),
            forall|j: int| 0 <= j < i ==> lower_of(#[trigger] s@[j]) == t@[j] as u32,
        decreases n - i,
    {
        let cv = s.get_char(i) as u32;
        let folded = if 65 <= cv && cv <= 90 {
            cv + 32
        } else {
            cv
        };
        if folded != t.get_char(i) as u32 {
            return false;
        }
        i = i + 1;
    }
    true
}

} // verus!
