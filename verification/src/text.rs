//! Numbers and characters written out as text.

use vstd::prelude::*;

verus! {

/// Taken on trust, not proved: the standard library's `String::push` puts
/// the character `ch` behind the last character of the string and leaves the
/// characters before it as they were.
pub assume_specification[ String::push ](s: &mut String, ch: char)
    ensures
        final(s)@ == old(s)@.push(ch),
;

/// The character that stands for the digit `d`, in lower case above nine.
pub open spec fn digit_char(d: nat) -> char {
    if d == 0 {
        '0'
    } else if d == 1 {
        '1'
    } else if d == 2 {
        '2'
    } else if d == 3 {
        '3'
    } else if d == 4 {
        '4'
    } else if d == 5 {
        '5'
    } else if d == 6 {
        '6'
    } else if d == 7 {
        '7'
    } else if d == 8 {
        '8'
    } else if d == 9 {
        '9'
    } else if d == 10 {
        'a'
    } else if d == 11 {
        'b'
    } else if d == 12 {
        'c'
    } else if d == 13 {
        'd'
    } else if d == 14 {
        'e'
    } else {
        'f'
    }
}

/// `n` in decimal, without leading zeros.
pub open spec fn decimal(n: nat) -> Seq<char>
    decreases n,
{
    if n < 10 {
        seq![digit_char(n)]
    } else {
        decimal(n / 10).push(digit_char(n % 10))
    }
}

/// `n` in hexadecimal, in lower case and without leading zeros.
pub open spec fn hexadecimal(n: nat) -> Seq<char>
    decreases n,
{
    if n < 16 {
        seq![digit_char(n)]
    } else {
        hexadecimal(n / 16).push(digit_char(n % 16))
    }
}

/// `i` in decimal, with a minus sign in front of a negative number.
pub open spec fn integer_text(i: int) -> Seq<char> {
    if i < 0 {
        seq!['-'] + decimal((-i) as nat)
    } else {
        decimal(i as nat)
    }
}

/// Whether `c` is one of the ten decimal digits.
pub open spec fn is_decimal_digit(c: char) -> bool {
    '0' <= c <= '9'
}

/// The number that the decimal digit `c` stands for.
pub open spec fn digit_value(c: char) -> nat {
    (c as nat - '0' as nat) as nat
}

/// The number written by the decimal digits at the end of `s`; zero where
/// `s` does not end in a digit.
pub open spec fn trailing_number(s: Seq<char>) -> nat
    decreases s.len(),
{
    if s.len() == 0 || !is_decimal_digit(s.last()) {
        0
    } else {
        trailing_number(s.drop_last()) * 10 + digit_value(s.last())
    }
}

/// Whether `s` does not end in a decimal digit.
pub open spec fn ends_without_digit(s: Seq<char>) -> bool {
    s.len() == 0 || !is_decimal_digit(s.last())
}

/// A string that does not end in a digit, followed by `n` in decimal, ends
/// in the number `n`.
pub proof fn lemma_trailing_number_of_decimal(head: Seq<char>, n: nat)
    requires
        ends_without_digit(head),
    ensures
        trailing_number(head + decimal(n)) == n,
    decreases n,
{
    let d = digit_char(n % 10);
    assert(is_decimal_digit(d) && digit_value(d) == n % 10);
    let front = if n < 10 {
        head
    } else {
        head + decimal(n / 10)
    };
    if n < 10 {
        assert(trailing_number(head) == 0);
    } else {
        lemma_trailing_number_of_decimal(head, n / 10);
    }
    let whole = front.push(d);
    assert(head + decimal(n) =~= whole);
    assert(whole.drop_last() =~= front);
    assert(whole.last() == d);
    assert(trailing_number(whole) == trailing_number(front) * 10 + digit_value(d));
}

/// Appends the digit `d` to `out`.
fn push_digit(out: &mut String, d: u64)
    requires
        d < 16,
    ensures
        final(out)@ == old(out)@.push(digit_char(d as nat)),
{
    let c = if d == 0 {
        '0'
    } else if d == 1 {
        '1'
    } else if d == 2 {
        '2'
    } else if d == 3 {
        '3'
    } else if d == 4 {
        '4'
    } else if d == 5 {
        '5'
    } else if d == 6 {
        '6'
    } else if d == 7 {
        '7'
    } else if d == 8 {
        '8'
    } else if d == 9 {
        '9'
    } else if d == 10 {
        'a'
    } else if d == 11 {
        'b'
    } else if d == 12 {
        'c'
    } else if d == 13 {
        'd'
    } else if d == 14 {
        'e'
    } else {
        'f'
    };
    out.push(c);
}

/// Appends `n` in decimal to `out`.
pub fn append_decimal(out: &mut String, n: u64)
    ensures
        final(out)@ == old(out)@ + decimal(n as nat),
    decreases n,
{
    if n >= 10 {
        append_decimal(out, n / 10);
    }
    push_digit(out, n % 10);
    assert(final(out)@ =~= old(out)@ + decimal(n as nat));
}

/// Appends `n` in lower-case hexadecimal to `out`.
pub fn append_hexadecimal(out: &mut String, n: u64)
    ensures
        final(out)@ == old(out)@ + hexadecimal(n as nat),
    decreases n,
{
    if n >= 16 {
        append_hexadecimal(out, n / 16);
    }
    push_digit(out, n % 16);
    assert(final(out)@ =~= old(out)@ + hexadecimal(n as nat));
}

/// Appends `i` in decimal to `out`, with a minus sign where it is negative.
pub fn append_integer(out: &mut String, i: i64)
    ensures
        final(out)@ == old(out)@ + integer_text(i as int),
{
    if i < 0 {
        out.push('-');
        let magnitude: u64 = (-(i + 1)) as u64 + 1;
        append_decimal(out, magnitude);
        assert(final(out)@ =~= old(out)@ + integer_text(i as int));
    } else {
        append_decimal(out, i as u64);
    }
}

/// The character `c` as it stands inside a string literal: a backslash
/// escape for tab, carriage return, line feed, the two quotes and the
/// backslash; the character itself where it is printable ASCII; and a
/// `\u{..}` escape with the code point in hexadecimal for every other.
pub open spec fn escaped_char(c: char) -> Seq<char> {
    if c == '\t' {
        seq!['\\', 't']
    } else if c == '\r' {
        seq!['\\', 'r']
    } else if c == '\n' {
        seq!['\\', 'n']
    } else if c == '\'' {
        seq!['\\', '\'']
    } else if c == '"' {
        seq!['\\', '"']
    } else if c == '\\' {
        seq!['\\', '\\']
    } else if ' ' <= c <= '~' {
        seq![c]
    } else {
        seq!['\\', 'u', '{'] + hexadecimal(c as nat) + seq!['}']
    }
}

/// The characters of `s`, each escaped.
pub open spec fn escaped(s: Seq<char>) -> Seq<char>
    decreases s.len(),
{
    if s.len() == 0 {
        Seq::empty()
    } else {
        escaped(s.drop_last()) + escaped_char(s.last())
    }
}

/// Appends the character `c`, escaped, to `out`.
fn append_escaped_char(out: &mut String, c: char)
    ensures
        final(out)@ == old(out)@ + escaped_char(c),
{
    if c == '\t' {
        out.push('\\');
        out.push('t');
    } else if c == '\r' {
        out.push('\\');
        out.push('r');
    } else if c == '\n' {
        out.push('\\');
        out.push('n');
    } else if c == '\'' {
        out.push('\\');
        out.push('\'');
    } else if c == '"' {
        out.push('\\');
        out.push('"');
    } else if c == '\\' {
        out.push('\\');
        out.push('\\');
    } else if c >= ' ' && c <= '~' {
        out.push(c);
    } else {
        out.push('\\');
        out.push('u');
        out.push('{');
        let code: u32 = c as u32;
        append_hexadecimal(out, code as u64);
        out.push('}');
        assert(out@ =~= old(out)@ + (seq!['\\', 'u', '{'] + hexadecimal(c as nat) + seq!['}']));
    }
    assert(out@ =~= old(out)@ + escaped_char(c));
}

/// Appends the characters of `s`, each escaped, to `out`.
pub fn append_escaped(out: &mut String, s: &str)
    ensures
        final(out)@ == old(out)@ + escaped(s@),
{
    assert(s@.take(0) =~= Seq::empty());
    assert(out@ =~= old(out)@ + escaped(s@.take(0)));
    for c in it: s.chars()
        invariant
            it.seq() == s@,
            out@ == old(out)@ + escaped(s@.take(it.index() as int)),
    {
        let ghost i = it.index() as int;
        assert(s@.take(i + 1).drop_last() =~= s@.take(i));
        assert(s@.take(i + 1).last() == c);
        append_escaped_char(out, c);
        assert(out@ =~= old(out)@ + escaped(s@.take(i + 1)));
    }
    assert(s@.take(s@.len() as int) =~= s@);
}

} // verus!
