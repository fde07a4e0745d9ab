//! Text rendering helpers: upper-case hexadecimal and decimal numbers.

use vstd::prelude::*;

use crate::threads::digits_value;
use crate::threads::is_digit;

verus! {

/// The character of a hexadecimal digit `d` (`0..16`), upper case.
pub open spec fn hex_digit(d: int) -> char {
    if d < 10 {
        (48 + d) as char
    } else {
        (55 + d) as char
    }
}

/// Two upper-case hexadecimal digits per byte, high nibble first.
pub open spec fn hex_upper(bytes: Seq<u8>) -> Seq<char>
    decreases bytes.len(),
{
    if bytes.len() == 0 {
        Seq::empty()
    } else {
        hex_upper(bytes.drop_last()) + seq![
            hex_digit(bytes.last() as int / 16),
            hex_digit(bytes.last() as int % 16),
        ]
    }
}

/// Whether `c` is one of `0-9A-F`.
pub open spec fn is_hex_upper_digit(c: char) -> bool {
    ('0' <= c <= '9') || ('A' <= c <= 'F')
}

/// Hex rendering doubles the length and uses only upper-case hex digits.
pub proof fn lemma_hex_upper_shape(bytes: Seq<u8>)
    ensures
        hex_upper(bytes).len() == 2 * bytes.len(),
        forall|i: int| 0 <= i < hex_upper(bytes).len() ==> is_hex_upper_digit(#[trigger] hex_upper(bytes)[i]),
    decreases bytes.len(),
{
    if bytes.len() > 0 {
        lemma_hex_upper_shape(bytes.drop_last());
        let b = bytes.last() as int;
        assert(0 <= b / 16 < 16 && 0 <= b % 16 < 16);
        let prefix = hex_upper(bytes.drop_last());
        assert forall|i: int| 0 <= i < hex_upper(bytes).len() implies is_hex_upper_digit(#[trigger] hex_upper(bytes)[i]) by {
            if i >= prefix.len() {
                let d = if i == prefix.len() { b / 16 } else { b % 16 };
                assert(hex_upper(bytes)[i] == hex_digit(d));
            }
        }
    }
}

/// Appends one character to a `String`.
/// Calls `String::push`, which the standard library documents as appending the
/// given `char` to the end of the string.
#[verifier::external_body]
pub(crate) fn push_char(s: &mut String, c: char)
    ensures
        final(s)@ == old(s)@.push(c),
{
    s.push(c);
}

/// The upper-case hexadecimal digit for `d < 16`.
pub fn hex_digit_char(d: u8) -> (c: char)
    requires
        d < 16,
    ensures
        c == hex_digit(d as int),
{
    let code: u8 = if d < 10 {
        48 + d
    } else {
        55 + d
    };
    code as char
}

/// Renders `bytes` as upper-case hexadecimal, two digits per byte.
pub fn to_hex_upper(bytes: &[u8]) -> (res: String)
    ensures
        res@ == hex_upper(bytes@),
{
    let mut res = String::new();
    let mut i: usize = 0;
    while i < bytes.len()
        invariant
            i <= bytes@.len(),
            res@ == hex_upper(bytes@.take(i as int)),
        decreases bytes@.len() - i,
    {
        let b: u8 = bytes[i];
        push_char(&mut res, hex_digit_char(b / 16));
        push_char(&mut res, hex_digit_char(b % 16));
        assert(bytes@.take(i + 1).drop_last() =~= bytes@.take(i as int));
        i = i + 1;
    }
    assert(bytes@.take(i as int) =~= bytes@);
    res
}

} // verus!

verus! {

/// The decimal digits of a natural number, most significant first.
pub open spec fn decimal_digits(n: nat) -> Seq<char>
    decreases n,
{
    if n < 10 {
        seq![(48 + n) as char]
    } else {
        decimal_digits(n / 10) + seq![(48 + n % 10) as char]
    }
}

/// The decimal form of an integer, with a leading `-` when negative.
pub open spec fn decimal(n: int) -> Seq<char> {
    if n < 0 {
        seq!['-'] + decimal_digits((-n) as nat)
    } else {
        decimal_digits(n as nat)
    }
}

/// The decimal rendering is a non-empty run of digits `0-9` that reads back
/// as the number, with no leading zero (so it is the usual way of writing it).
pub proof fn lemma_decimal_digits_read_back(n: nat)
    ensures
        decimal_digits(n).len() > 0,
        forall|i: int| 0 <= i < decimal_digits(n).len() ==> is_digit(#[trigger] decimal_digits(n)[i]),
        digits_value(decimal_digits(n)) == n,
        n > 0 ==> decimal_digits(n)[0] != '0',
        n == 0 ==> decimal_digits(n) == seq!['0'],
    decreases n,
{
    let ds = decimal_digits(n);
    if n < 10 {
        assert(ds.drop_last() =~= Seq::<char>::empty());
        assert(digits_value(ds.drop_last()) == 0);
    } else {
        let hi = decimal_digits(n / 10);
        lemma_decimal_digits_read_back(n / 10);
        assert(ds.drop_last() =~= hi);
        assert(ds.last() as int == 48 + n % 10);
        assert forall|i: int| 0 <= i < ds.len() implies is_digit(#[trigger] ds[i]) by {
            if i < hi.len() {
                assert(ds[i] == hi[i]);
            }
        }
        assert(ds[0] == hi[0]);
    }
}

/// The decimal form of an integer reads back as it: a `-` followed by the
/// digits of its magnitude when negative, just the digits otherwise.
pub proof fn lemma_decimal_read_back(n: int)
    ensures
        n < 0 ==> decimal(n)[0] == '-' && decimal(n).drop_first() == decimal_digits((-n) as nat)
            && digits_value(decimal(n).drop_first()) == -n,
        n >= 0 ==> decimal(n) == decimal_digits(n as nat) && digits_value(decimal(n)) == n,
        forall|i: int| 0 < i < decimal(n).len() ==> is_digit(#[trigger] decimal(n)[i]),
        decimal(n).len() > 0,
        n >= 0 ==> is_digit(decimal(n)[0]),
{
    if n < 0 {
        lemma_decimal_digits_read_back((-n) as nat);
        assert(decimal(n).drop_first() =~= decimal_digits((-n) as nat));
        assert forall|i: int| 0 < i < decimal(n).len() implies is_digit(#[trigger] decimal(n)[i]) by {
            assert(decimal(n)[i] == decimal_digits((-n) as nat)[i - 1]);
        }
    } else {
        lemma_decimal_digits_read_back(n as nat);
    }
}

/// Appends the decimal digits of `n`.
pub fn push_decimal_digits(s: &mut String, n: u64)
    ensures
        final(s)@ == old(s)@ + decimal_digits(n as nat),
    decreases n,
{
    if n >= 10 {
        push_decimal_digits(s, n / 10);
    }
    let d: u8 = (n % 10) as u8;
    let c: char = (48u8 + d) as char;
    push_char(s, c);
    assert(final(s)@ =~= old(s)@ + decimal_digits(n as nat));
}

/// Appends the decimal form of `n`.
pub fn push_decimal(s: &mut String, n: i64)
    ensures
        final(s)@ == old(s)@ + decimal(n as int),
{
    if n < 0 {
        push_char(s, '-');
        let magnitude: u64 = (0i128 - n as i128) as u64;
        push_decimal_digits(s, magnitude);
        assert(final(s)@ =~= old(s)@ + decimal(n as int));
    } else {
        push_decimal_digits(s, n as u64);
    }
}

/// `s` with every occurrence of the non-empty `pattern` replaced by
/// `replacement`, matches taken from left to right without overlapping.
pub open spec fn replace_matches(s: Seq<char>, pattern: Seq<char>, replacement: Seq<char>) -> Seq<
    char,
>
    decreases s.len(),
{
    if s.len() == 0 || pattern.len() == 0 {
        s
    } else if pattern.len() <= s.len() && s.take(pattern.len() as int) == pattern {
        replacement + replace_matches(s.skip(pattern.len() as int), pattern, replacement)
    } else {
        seq![s[0]] + replace_matches(s.skip(1), pattern, replacement)
    }
}

/// `replacement` before, between and after the characters of `s`: what
/// replacing the empty pattern gives.
pub open spec fn interleave(s: Seq<char>, replacement: Seq<char>) -> Seq<char>
    decreases s.len(),
{
    if s.len() == 0 {
        replacement
    } else {
        replacement + seq![s[0]] + interleave(s.skip(1), replacement)
    }
}

/// Replacing every match of `pattern` in `s`: left to right without
/// overlapping for a non-empty pattern; the empty pattern matches before,
/// between and after all characters.
pub open spec fn replace_all(s: Seq<char>, pattern: Seq<char>, replacement: Seq<char>) -> Seq<char> {
    if pattern.len() == 0 {
        interleave(s, replacement)
    } else {
        replace_matches(s, pattern, replacement)
    }
}

/// `pattern` occurs in `s` starting at position `i`.
pub open spec fn occurs_at_spec(s: Seq<char>, pattern: Seq<char>, i: int) -> bool {
    0 <= i && i + pattern.len() <= s.len() && s.subrange(i, i + pattern.len()) == pattern
}

/// Text without any occurrence of a non-empty pattern is left as it is,
/// whatever the replacement.
pub proof fn lemma_replace_without_match(s: Seq<char>, pattern: Seq<char>, replacement: Seq<char>)
    requires
        pattern.len() > 0,
        forall|i: int| !#[trigger] occurs_at_spec(s, pattern, i),
    ensures
        replace_all(s, pattern, replacement) == s,
    decreases s.len(),
{
    if s.len() > 0 {
        let t = s.skip(1);
        assert forall|i: int| !#[trigger] occurs_at_spec(t, pattern, i) by {
            if occurs_at_spec(t, pattern, i) {
                assert(s.subrange(i + 1, i + 1 + pattern.len()) =~= t.subrange(i, i + pattern.len()));
                assert(occurs_at_spec(s, pattern, i + 1));
            }
        }
        lemma_replace_without_match(t, pattern, replacement);
        if pattern.len() <= s.len() {
            assert(s.take(pattern.len() as int) =~= s.subrange(0, pattern.len() as int));
            assert(!occurs_at_spec(s, pattern, 0));
        }
        assert(seq![s[0]] + t =~= s);
    }
}

/// The first match is replaced: when `pattern` (non-empty) does not occur
/// before the end of `a`, replacing in `a + pattern + b` keeps `a`, puts the
/// replacement for the pattern, and goes on with `b`, whatever the
/// replacement is (the empty one too).
pub proof fn lemma_replace_first_match(
    a: Seq<char>,
    pattern: Seq<char>,
    b: Seq<char>,
    replacement: Seq<char>,
)
    requires
        pattern.len() > 0,
        forall|i: int| 0 <= i < a.len() ==> !#[trigger] occurs_at_spec(a + pattern + b, pattern, i),
    ensures
        replace_all(a + pattern + b, pattern, replacement) == a + replacement + replace_all(
            b,
            pattern,
            replacement,
        ),
    decreases a.len(),
{
    let s = a + pattern + b;
    if a.len() == 0 {
        assert(s =~= pattern + b);
        assert(s.take(pattern.len() as int) =~= pattern);
        assert(s.skip(pattern.len() as int) =~= b);
        assert(a + replacement =~= replacement);
    } else {
        let a1 = a.skip(1);
        assert(s.skip(1) =~= a1 + pattern + b);
        assert forall|i: int| 0 <= i < a1.len() implies !#[trigger] occurs_at_spec(a1 + pattern + b, pattern, i) by {
            assert((a1 + pattern + b).subrange(i, i + pattern.len()) =~= s.subrange(i + 1, i + 1 + pattern.len()));
            assert(!occurs_at_spec(s, pattern, i + 1));
        }
        lemma_replace_first_match(a1, pattern, b, replacement);
        assert(s.take(pattern.len() as int) =~= s.subrange(0, pattern.len() as int));
        assert(!occurs_at_spec(s, pattern, 0));
        assert(seq![s[0]] + (a1 + replacement + replace_all(b, pattern, replacement)) =~= a + replacement
            + replace_all(b, pattern, replacement));
    }
}

/// Whether `pattern` occurs in `s` at character position `at`.
fn occurs_at(s: &str, pattern: &str, at: usize) -> (b: bool)
    requires
        at <= s@.len(),
    ensures
        b == (at + pattern@.len() <= s@.len() && s@.subrange(at as int, at + pattern@.len()) == pattern@),
{
    let n = s.unicode_len();
    let m = pattern.unicode_len();
    if m > n - at {
        return false;
    }
    let mut j: usize = 0;
    while j < m
        invariant
            n == s@.len(),
            m == pattern@.len(),
            at + m <= n,
            j <= m,
            forall|k: int| 0 <= k < j ==> s@[at + k] == pattern@[k],
        decreases m - j,
    {
        if s.get_char(at + j) != pattern.get_char(j) {
            assert(s@.subrange(at as int, at + m)[j as int] != pattern@[j as int]);
            return false;
        }
        j = j + 1;
    }
    assert(s@.subrange(at as int, at + m) =~= pattern@);
    true
}

/// Replaces every occurrence of the non-empty `pattern`, left to right.
fn replace_nonempty(s: &str, pattern: &str, replacement: &str) -> (res: String)
    requires
        pattern@.len() > 0,
    ensures
        res@ == replace_matches(s@, pattern@, replacement@),
{
    let n = s.unicode_len();
    let m = pattern.unicode_len();
    let mut res = String::new();
    let mut i: usize = 0;
    assert(s@.skip(0) =~= s@);
    while i < n
        invariant
            n == s@.len(),
            m == pattern@.len(),
            m > 0,
            i <= n,
            res@ + replace_matches(s@.skip(i as int), pattern@, replacement@) == replace_matches(s@, pattern@, replacement@),
        decreases n - i,
    {
        let ghost rest = s@.skip(i as int);
        if occurs_at(s, pattern, i) {
            assert(rest.take(m as int) =~= s@.subrange(i as int, i + m));
            assert(rest.skip(m as int) =~= s@.skip(i + m));
            let ghost before = res@;
            res.append(replacement);
            assert(res@ + replace_matches(s@.skip(i + m), pattern@, replacement@) =~= before + (
            replacement@ + replace_matches(s@.skip(i + m), pattern@, replacement@)));
            i = i + m;
        } else {
            assert(!(m <= rest.len() && rest.take(m as int) == pattern@)) by {
                if m <= rest.len() {
                    assert(rest.take(m as int) =~= s@.subrange(i as int, i + m));
                }
            }
            let c = s.get_char(i);
            let ghost before = res@;
            push_char(&mut res, c);
            assert(rest.skip(1) =~= s@.skip(i + 1));
            assert(res@ + replace_matches(s@.skip(i + 1), pattern@, replacement@) =~= before + (seq![c]
                + replace_matches(s@.skip(i + 1), pattern@, replacement@)));
            i = i + 1;
        }
    }
    assert(s@.skip(i as int).len() == 0);
    assert(res@ + s@.skip(i as int) =~= res@);
    res
}

/// Puts `replacement` before, between and after the characters of `s`.
fn interleave_with(s: &str, replacement: &str) -> (res: String)
    ensures
        res@ == interleave(s@, replacement@),
{
    let n = s.unicode_len();
    let mut res = String::new();
    let mut i: usize = 0;
    assert(s@.skip(0) =~= s@);
    while i < n
        invariant
            n == s@.len(),
            i <= n,
            res@ + interleave(s@.skip(i as int), replacement@) == interleave(s@, replacement@),
        decreases n - i,
    {
        let ghost before = res@;
        let c = s.get_char(i);
        res.append(replacement);
        push_char(&mut res, c);
        assert(s@.skip(i as int)[0] == c);
        assert(s@.skip(i as int).skip(1) =~= s@.skip(i + 1));
        assert(res@ + interleave(s@.skip(i + 1), replacement@) =~= before + (replacement@ + seq![c]
            + interleave(s@.skip(i + 1), replacement@)));
        i = i + 1;
    }
    assert(s@.skip(i as int).len() == 0);
    res.append(replacement);
    res
}

/// Replaces every match of `pattern` in `s` by `replacement`, as `str::replace`
/// does: left to right without overlapping, and for the empty pattern before,
/// between and after all characters.
pub fn replace(s: &str, pattern: &str, replacement: &str) -> (res: String)
    ensures
        res@ == replace_all(s@, pattern@, replacement@),
{
    if pattern.unicode_len() == 0 {
        interleave_with(s, replacement)
    } else {
        replace_nonempty(s, pattern, replacement)
    }
}

} // verus!
