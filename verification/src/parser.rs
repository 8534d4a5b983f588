//! The concrete syntax of the source language.
//!
//! A program is a run of expressions with white space between them. The
//! grammar is read as an ordered choice: at each place the first form that
//! fits is taken, and a form that fits is never taken back.

use vstd::prelude::*;
use crate::ast::{
    bindings_view,
    exprs_view,
    lemma_view_of_call,
    lemma_view_of_do,
    lemma_view_of_let,
    names_view,
    BinPrim,
    Expr,
    ExprView,
    UnPrim,
};
use crate::text::digit_value;

verus! {

/// Whether `c` separates tokens: a space, a tab, a carriage return or a line
/// feed.
pub open spec fn is_space(c: char) -> bool {
    c == ' ' || c == '\t' || c == '\r' || c == '\n'
}

/// Whether `c` is a decimal digit.
pub open spec fn is_digit(c: char) -> bool {
    '0' <= c <= '9'
}

/// Whether `c` is a letter of the ASCII alphabet.
pub open spec fn is_letter(c: char) -> bool {
    ('a' <= c <= 'z') || ('A' <= c <= 'Z')
}

/// Whether `c` may stand inside an identifier.
pub open spec fn is_identifier_part(c: char) -> bool {
    is_letter(c) || is_digit(c) || c == '_'
}

/// Whether `c` is white space as Unicode defines it.
pub open spec fn is_white_space(c: char) -> bool {
    ('\u{9}' <= c <= '\u{d}') || c == ' ' || c == '\u{85}' || c == '\u{a0}' || c == '\u{1680}' || (
    '\u{2000}' <= c <= '\u{200a}') || c == '\u{2028}' || c == '\u{2029}' || c == '\u{202f}' || c
        == '\u{205f}' || c == '\u{3000}'
}

/// The first position at or after `pos` that holds no token separator.
pub open spec fn skip_spaces(s: Seq<char>, pos: int) -> int
    decreases s.len() - pos,
{
    if 0 <= pos < s.len() && is_space(s[pos]) {
        skip_spaces(s, pos + 1)
    } else {
        pos
    }
}

/// The first position at or after `pos` that holds no digit.
pub open spec fn digits_end(s: Seq<char>, pos: int) -> int
    decreases s.len() - pos,
{
    if 0 <= pos < s.len() && is_digit(s[pos]) {
        digits_end(s, pos + 1)
    } else {
        pos
    }
}

/// The first position at or after `pos` that holds no character of an
/// identifier.
pub open spec fn identifier_end(s: Seq<char>, pos: int) -> int
    decreases s.len() - pos,
{
    if 0 <= pos < s.len() && is_identifier_part(s[pos]) {
        identifier_end(s, pos + 1)
    } else {
        pos
    }
}

/// The number that the digits of `s` from `from` up to `to` write in
/// decimal.
pub open spec fn digits_value(s: Seq<char>, from: int, to: int) -> nat
    decreases to - from,
{
    if to <= from {
        0
    } else {
        digits_value(s, from, to - 1) * 10 + digit_value(s[to - 1])
    }
}

/// Whether `word` stands in `s` at `pos`.
pub open spec fn word_at(s: Seq<char>, pos: int, word: Seq<char>) -> bool {
    0 <= pos && pos + word.len() <= s.len() && s.subrange(pos, pos + word.len()) == word
}

/// The position behind the character `c`, where it stands at `pos`.
pub open spec fn symbol_at(s: Seq<char>, pos: int, c: char) -> Option<int> {
    if 0 <= pos < s.len() && s[pos] == c {
        Some(pos + 1)
    } else {
        None
    }
}

/// The position behind `word` and the spaces after it, where `word` stands
/// at `pos` or behind spaces at `pos`.
pub open spec fn keyword_at(s: Seq<char>, pos: int, word: Seq<char>) -> Option<int> {
    let start = skip_spaces(s, pos);
    if word_at(s, start, word) {
        Some(skip_spaces(s, start + word.len()))
    } else {
        None
    }
}

/// The number at `pos`: a run of digits whose value fits in 64 bits with a
/// sign.
pub open spec fn number_at(s: Seq<char>, pos: int) -> Option<(ExprView, int)> {
    let end = digits_end(s, pos);
    if end <= pos || digits_value(s, pos, end) > i64::MAX {
        None
    } else {
        Some((ExprView::Num(digits_value(s, pos, end) as i64), end))
    }
}

/// The word at `pos` that has the shape of an identifier: a letter or an
/// underscore, and the letters, digits and underscores that follow.
pub open spec fn word_shape_at(s: Seq<char>, pos: int) -> Option<(Seq<char>, int)> {
    if 0 <= pos < s.len() && (is_letter(s[pos]) || s[pos] == '_') {
        let end = identifier_end(s, pos + 1);
        Some((s.subrange(pos, end), end))
    } else {
        None
    }
}

/// The identifier at `pos`, or the boolean where the word is `true` or
/// `false`.
pub open spec fn identifier_at(s: Seq<char>, pos: int) -> Option<(ExprView, int)> {
    match word_shape_at(s, pos) {
        Some((word, end)) => Some(
            (
                if word == "true"@ {
                    ExprView::True
                } else if word == "false"@ {
                    ExprView::False
                } else {
                    ExprView::Id(word)
                },
                end,
            ),
        ),
        None => None,
    }
}

/// The name at `pos` or behind spaces at `pos`, and the position behind it
/// and the spaces after it: an identifier that is neither `true` nor
/// `false`.
pub open spec fn name_at(s: Seq<char>, pos: int) -> Option<(Seq<char>, int)> {
    match word_shape_at(s, skip_spaces(s, pos)) {
        Some((word, end)) => if word == "true"@ || word == "false"@ {
            None
        } else {
            Some((word, skip_spaces(s, end)))
        },
        None => None,
    }
}

/// The names from `pos` on, and the position behind the last of them.
pub open spec fn names_from(s: Seq<char>, pos: int) -> (Seq<Seq<char>>, int)
    decreases s.len() - pos,
{
    match name_at(s, pos) {
        Some((name, p)) => if pos < p <= s.len() {
            (seq![name] + names_from(s, p).0, names_from(s, p).1)
        } else {
            (Seq::empty(), pos)
        },
        None => (Seq::empty(), pos),
    }
}

/// The empty list at `pos`: an opening bracket and a closing one.
pub open spec fn nil_at(s: Seq<char>, pos: int) -> Option<(ExprView, int)> {
    if word_at(s, pos, "()"@) {
        Some((ExprView::Nil, pos + 2))
    } else {
        None
    }
}

/// The primitive of one operand at `pos` or behind spaces at `pos`, and the
/// position behind it and the spaces after it.
pub open spec fn unary_primitive_at(s: Seq<char>, pos: int) -> Option<(UnPrim, int)> {
    if keyword_at(s, pos, "add1"@) is Some {
        Some((UnPrim::Add1, keyword_at(s, pos, "add1"@)->0))
    } else if keyword_at(s, pos, "sub1"@) is Some {
        Some((UnPrim::Sub1, keyword_at(s, pos, "sub1"@)->0))
    } else if keyword_at(s, pos, "zero?"@) is Some {
        Some((UnPrim::IsZero, keyword_at(s, pos, "zero?"@)->0))
    } else if keyword_at(s, pos, "num?"@) is Some {
        Some((UnPrim::IsNum, keyword_at(s, pos, "num?"@)->0))
    } else if keyword_at(s, pos, "not"@) is Some {
        Some((UnPrim::Not, keyword_at(s, pos, "not"@)->0))
    } else {
        None
    }
}

/// The primitive of two operands at `pos` or behind spaces at `pos`, and
/// the position behind it and the spaces after it.
pub open spec fn binary_primitive_at(s: Seq<char>, pos: int) -> Option<(BinPrim, int)> {
    let start = skip_spaces(s, pos);
    if symbol_at(s, start, '+') is Some {
        Some((BinPrim::Plus, skip_spaces(s, start + 1)))
    } else if symbol_at(s, start, '-') is Some {
        Some((BinPrim::Minus, skip_spaces(s, start + 1)))
    } else if symbol_at(s, start, '=') is Some {
        Some((BinPrim::Eq, skip_spaces(s, start + 1)))
    } else if symbol_at(s, start, '<') is Some {
        Some((BinPrim::Lt, skip_spaces(s, start + 1)))
    } else {
        None
    }
}

/// The expression at `pos`: the first of a number, an identifier, the empty
/// list, and the bracketed forms, in the order given, that stands there.
pub open spec fn expr_at(s: Seq<char>, pos: int) -> Option<(ExprView, int)>
    decreases s.len() - pos, 2nat,
{
    if number_at(s, pos) is Some {
        number_at(s, pos)
    } else if identifier_at(s, pos) is Some {
        identifier_at(s, pos)
    } else if nil_at(s, pos) is Some {
        nil_at(s, pos)
    } else if unary_form_at(s, pos) is Some {
        unary_form_at(s, pos)
    } else if binary_form_at(s, pos) is Some {
        binary_form_at(s, pos)
    } else if conditional_at(s, pos) is Some {
        conditional_at(s, pos)
    } else if let_at(s, pos) is Some {
        let_at(s, pos)
    } else if do_at(s, pos) is Some {
        do_at(s, pos)
    } else if definition_at(s, pos) is Some {
        definition_at(s, pos)
    } else {
        call_at(s, pos)
    }
}

/// The expression at `pos` or behind spaces at `pos`, and the position
/// behind it and the spaces after it.
pub open spec fn spaced_expr_at(s: Seq<char>, pos: int) -> Option<(ExprView, int)>
    decreases s.len() - pos, 3nat,
{
    let start = skip_spaces(s, pos);
    if pos <= start <= s.len() {
        match expr_at(s, start) {
            Some((e, p)) => Some((e, skip_spaces(s, p))),
            None => None,
        }
    } else {
        None
    }
}

/// The expression at `p` inside the form that opens at `outer`. A part of a
/// form lies behind the form's opening bracket and within the text.
pub open spec fn expr_within(s: Seq<char>, outer: int, p: int) -> Option<(ExprView, int)>
    decreases s.len() - outer, 0nat,
{
    if outer < p <= s.len() {
        spaced_expr_at(s, p)
    } else {
        None
    }
}

/// The expressions from `pos` on, and the position behind the last of them.
pub open spec fn exprs_from(s: Seq<char>, pos: int) -> (Seq<ExprView>, int)
    decreases s.len() - pos, 4nat,
{
    match spaced_expr_at(s, pos) {
        Some((e, p)) => if pos < p <= s.len() {
            (seq![e] + exprs_from(s, p).0, exprs_from(s, p).1)
        } else {
            (Seq::empty(), pos)
        },
        None => (Seq::empty(), pos),
    }
}

/// The expressions from `p` on inside the form that opens at `outer`.
pub open spec fn exprs_within(s: Seq<char>, outer: int, p: int) -> (Seq<ExprView>, int)
    decreases s.len() - outer, 0nat,
{
    if outer < p <= s.len() {
        exprs_from(s, p)
    } else {
        (Seq::empty(), p)
    }
}

/// The form `(op e)` at `pos`, for a primitive `op` of one operand.
pub open spec fn unary_form_at(s: Seq<char>, pos: int) -> Option<(ExprView, int)>
    decreases s.len() - pos, 1nat,
{
    match symbol_at(s, pos, '(') {
        Some(p0) => match unary_primitive_at(s, p0) {
            Some((op, p1)) => match expr_within(s, pos, p1) {
                Some((e, p2)) => match symbol_at(s, p2, ')') {
                    Some(p3) => Some((ExprView::UnPrim(op, Box::new(e)), p3)),
                    None => None,
                },
                None => None,
            },
            None => None,
        },
        None => None,
    }
}

/// The form `(op e1 e2)` at `pos`, for a primitive `op` of two operands.
pub open spec fn binary_form_at(s: Seq<char>, pos: int) -> Option<(ExprView, int)>
    decreases s.len() - pos, 1nat,
{
    match symbol_at(s, pos, '(') {
        Some(p0) => match binary_primitive_at(s, p0) {
            Some((op, p1)) => match expr_within(s, pos, p1) {
                Some((left, p2)) => match expr_within(s, pos, p2) {
                    Some((right, p3)) => match symbol_at(s, p3, ')') {
                        Some(p4) => Some(
                            (ExprView::BinPrim(op, Box::new(left), Box::new(right)), p4),
                        ),
                        None => None,
                    },
                    None => None,
                },
                None => None,
            },
            None => None,
        },
        None => None,
    }
}

/// The form `(if test then else)` at `pos`.
pub open spec fn conditional_at(s: Seq<char>, pos: int) -> Option<(ExprView, int)>
    decreases s.len() - pos, 1nat,
{
    match symbol_at(s, pos, '(') {
        Some(p0) => match keyword_at(s, p0, "if"@) {
            Some(p1) => match expr_within(s, pos, p1) {
                Some((test, p2)) => match expr_within(s, pos, p2) {
                    Some((then, p3)) => match expr_within(s, pos, p3) {
                        Some((otherwise, p4)) => match symbol_at(s, p4, ')') {
                            Some(p5) => Some(
                                (
                                    ExprView::If(
                                        Box::new(test),
                                        Box::new(then),
                                        Box::new(otherwise),
                                    ),
                                    p5,
                                ),
                            ),
                            None => None,
                        },
                        None => None,
                    },
                    None => None,
                },
                None => None,
            },
            None => None,
        },
        None => None,
    }
}

/// The binding `(name e)` at `pos`.
pub open spec fn binding_at(s: Seq<char>, pos: int) -> Option<((Seq<char>, ExprView), int)>
    decreases s.len() - pos, 1nat,
{
    match symbol_at(s, pos, '(') {
        Some(p0) => match name_at(s, p0) {
            Some((name, p1)) => match expr_within(s, pos, p1) {
                Some((e, p2)) => match symbol_at(s, p2, ')') {
                    Some(p3) => Some(((name, e), p3)),
                    None => None,
                },
                None => None,
            },
            None => None,
        },
        None => None,
    }
}

/// The bindings from `pos` on, with spaces around each, and the position
/// behind the last of them.
pub open spec fn bindings_from(s: Seq<char>, pos: int) -> (Seq<(Seq<char>, ExprView)>, int)
    decreases s.len() - pos, 4nat,
{
    let start = skip_spaces(s, pos);
    if pos <= start <= s.len() {
        match binding_at(s, start) {
            Some((binding, p)) => if pos < skip_spaces(s, p) <= s.len() {
                (
                    seq![binding] + bindings_from(s, skip_spaces(s, p)).0,
                    bindings_from(s, skip_spaces(s, p)).1,
                )
            } else {
                (Seq::empty(), pos)
            },
            None => (Seq::empty(), pos),
        }
    } else {
        (Seq::empty(), pos)
    }
}

/// The bindings from `p` on inside the form that opens at `outer`.
pub open spec fn bindings_within(s: Seq<char>, outer: int, p: int) -> (
    Seq<(Seq<char>, ExprView)>,
    int,
)
    decreases s.len() - outer, 0nat,
{
    if outer < p <= s.len() {
        bindings_from(s, p)
    } else {
        (Seq::empty(), p)
    }
}

/// The form `(let (bindings) body)` at `pos`.
pub open spec fn let_at(s: Seq<char>, pos: int) -> Option<(ExprView, int)>
    decreases s.len() - pos, 1nat,
{
    match symbol_at(s, pos, '(') {
        Some(p0) => match keyword_at(s, p0, "let"@) {
            Some(p1) => match symbol_at(s, p1, '(') {
                Some(p2) => match symbol_at(s, bindings_within(s, pos, p2).1, ')') {
                    Some(p3) => match expr_within(s, pos, p3) {
                        Some((body, p4)) => match symbol_at(s, p4, ')') {
                            Some(p5) => Some(
                                (
                                    ExprView::Let(bindings_within(s, pos, p2).0, Box::new(body)),
                                    p5,
                                ),
                            ),
                            None => None,
                        },
                        None => None,
                    },
                    None => None,
                },
                None => None,
            },
            None => None,
        },
        None => None,
    }
}

/// The form `(do e1 e2 ...)` at `pos`, of one expression at least.
pub open spec fn do_at(s: Seq<char>, pos: int) -> Option<(ExprView, int)>
    decreases s.len() - pos, 1nat,
{
    match symbol_at(s, pos, '(') {
        Some(p0) => match keyword_at(s, p0, "do"@) {
            Some(p1) => if exprs_within(s, pos, p1).0.len() == 0 {
                None
            } else {
                match symbol_at(s, exprs_within(s, pos, p1).1, ')') {
                    Some(p2) => Some((ExprView::Do(exprs_within(s, pos, p1).0), p2)),
                    None => None,
                }
            },
            None => None,
        },
        None => None,
    }
}

/// The form `(define (name params) body)` at `pos`.
pub open spec fn definition_at(s: Seq<char>, pos: int) -> Option<(ExprView, int)>
    decreases s.len() - pos, 1nat,
{
    match symbol_at(s, pos, '(') {
        Some(p0) => match keyword_at(s, p0, "define"@) {
            Some(p1) => match symbol_at(s, p1, '(') {
                Some(p2) => match name_at(s, p2) {
                    Some((name, p3)) => match symbol_at(s, names_from(s, p3).1, ')') {
                        Some(p4) => match expr_within(s, pos, p4) {
                            Some((body, p5)) => match symbol_at(s, p5, ')') {
                                Some(p6) => Some(
                                    (
                                        ExprView::Define(
                                            name,
                                            names_from(s, p3).0,
                                            Box::new(body),
                                        ),
                                        p6,
                                    ),
                                ),
                                None => None,
                            },
                            None => None,
                        },
                        None => None,
                    },
                    None => None,
                },
                None => None,
            },
            None => None,
        },
        None => None,
    }
}

/// The form `(f e1 e2 ...)` at `pos`: the call of the function `f`.
pub open spec fn call_at(s: Seq<char>, pos: int) -> Option<(ExprView, int)>
    decreases s.len() - pos, 1nat,
{
    match symbol_at(s, pos, '(') {
        Some(p0) => match name_at(s, p0) {
            Some((f, p1)) => match symbol_at(s, exprs_within(s, pos, p1).1, ')') {
                Some(p2) => Some((ExprView::Call(f, exprs_within(s, pos, p1).0), p2)),
                None => None,
            },
            None => None,
        },
        None => None,
    }
}

/// What is said of a text that holds more than expressions and white space:
/// the part that was not read, between quotes.
pub open spec fn incomplete_message(rest: Seq<char>) -> Seq<char> {
    "Parsing incomplete. Remaining input: '"@ + rest + "'"@
}

/// The program that the text `s` holds: its expressions, where nothing but
/// white space follows the last of them, and else the complaint about what
/// follows.
pub open spec fn program_of(s: Seq<char>) -> Result<Seq<ExprView>, Seq<char>> {
    let (es, end) = exprs_from(s, 0);
    if forall|i: int| end <= i < s.len() ==> is_white_space(#[trigger] s[i]) {
        Ok(es)
    } else {
        Err(incomplete_message(s.subrange(end, s.len() as int)))
    }
}

/// A parser never reads backwards nor beyond the text: skipping spaces.
pub proof fn lemma_skip_spaces_bounds(s: Seq<char>, pos: int)
    requires
        0 <= pos <= s.len(),
    ensures
        pos <= skip_spaces(s, pos) <= s.len(),
    decreases s.len() - pos,
{
    if pos < s.len() && is_space(s[pos]) {
        lemma_skip_spaces_bounds(s, pos + 1);
    }
}

/// What an executable parser of expressions gives, as the grammar speaks of
/// it.
pub open spec fn parsed_view(r: Option<(Expr, usize)>) -> Option<(ExprView, int)> {
    match r {
        Some((e, p)) => Some((e@, p as int)),
        None => None,
    }
}

/// The characters of `input`.
fn chars_of(input: &str) -> (s: Vec<char>)
    ensures
        s@ == input@,
{
    let mut s: Vec<char> = Vec::new();
    for c in it: input.chars()
        invariant
            s@ == it.seq().take(it.index() as int),
            it.seq() == input@,
    {
        s.push(c);
    }
    s
}

/// The characters of `s` from `from` up to `to`, as a string.
fn text_of(s: &Vec<char>, from: usize, to: usize) -> (text: String)
    requires
        from <= to <= s.len(),
    ensures
        text@ == s@.subrange(from as int, to as int),
{
    let mut text = String::new();
    let mut i: usize = from;
    while i < to
        invariant
            from <= i <= to <= s.len(),
            text@ == s@.subrange(from as int, i as int),
        decreases to - i,
    {
        text.push(s[i]);
        assert(text@ =~= s@.subrange(from as int, i + 1));
        i += 1;
    }
    text
}

fn is_space_char(c: char) -> (b: bool)
    ensures
        b == is_space(c),
{
    c == ' ' || c == '\t' || c == '\r' || c == '\n'
}

fn is_digit_char(c: char) -> (b: bool)
    ensures
        b == is_digit(c),
{
    c >= '0' && c <= '9'
}

fn is_letter_char(c: char) -> (b: bool)
    ensures
        b == is_letter(c),
{
    (c >= 'a' && c <= 'z') || (c >= 'A' && c <= 'Z')
}

fn is_white_space_char(c: char) -> (b: bool)
    ensures
        b == is_white_space(c),
{
    (c >= '\u{9}' && c <= '\u{d}') || c == ' ' || c == '\u{85}' || c == '\u{a0}' || c == '\u{1680}'
        || (c >= '\u{2000}' && c <= '\u{200a}') || c == '\u{2028}' || c == '\u{2029}' || c
        == '\u{202f}' || c == '\u{205f}' || c == '\u{3000}'
}

/// Skips the spaces at `pos`.
fn ws(s: &Vec<char>, pos: usize) -> (p: usize)
    requires
        pos <= s.len(),
    ensures
        p == skip_spaces(s@, pos as int),
        pos <= p <= s.len(),
{
    let mut i: usize = pos;
    while i < s.len() && is_space_char(s[i])
        invariant
            pos <= i <= s.len(),
            skip_spaces(s@, pos as int) == skip_spaces(s@, i as int),
        decreases s.len() - i,
    {
        i += 1;
    }
    i
}

/// Whether `word` stands in `s` at `pos`.
fn word_stands_at(s: &Vec<char>, pos: usize, word: &str) -> (b: bool)
    requires
        pos <= s.len(),
    ensures
        b == word_at(s@, pos as int, word@),
{
    let n: usize = word.unicode_len();
    if n > s.len() - pos {
        return false;
    }
    let mut j: usize = 0;
    while j < n
        invariant
            j <= n,
            n == word@.len(),
            pos + n <= s.len(),
            forall|k: int| 0 <= k < j ==> s@[pos + k] == word@[k],
        decreases n - j,
    {
        if s[pos + j] != word.get_char(j) {
            assert(s@.subrange(pos as int, pos + n)[j as int] == s@[pos + j]);
            return false;
        }
        j += 1;
    }
    assert(s@.subrange(pos as int, pos + n) =~= word@);
    true
}

/// The position behind `word` and the spaces after it, where `word` stands
/// at `pos` or behind spaces at `pos`.
fn keyword(s: &Vec<char>, pos: usize, word: &str) -> (r: Option<usize>)
    requires
        pos <= s.len(),
    ensures
        r == match keyword_at(s@, pos as int, word@) {
            Some(p) => Some(p as usize),
            None => None,
        },
        r matches Some(p) ==> pos <= p <= s.len() && p == keyword_at(s@, pos as int, word@)->0,
{
    let start = ws(s, pos);
    if word_stands_at(s, start, word) {
        let n: usize = word.unicode_len();
        Some(ws(s, start + n))
    } else {
        None
    }
}

/// The position behind the character `c`, where it stands at `pos`.
fn symbol(s: &Vec<char>, pos: usize, c: char) -> (r: Option<usize>)
    requires
        pos <= s.len(),
    ensures
        r matches Some(p) ==> symbol_at(s@, pos as int, c) == Some(p as int) && p == pos + 1 && p
            <= s.len(),
        r is None ==> symbol_at(s@, pos as int, c) is None,
{
    if pos < s.len() && s[pos] == c {
        Some(pos + 1)
    } else {
        None
    }
}

/// The value of a run of digits does not shrink as the run grows.
proof fn lemma_digits_value_grows(s: Seq<char>, from: int, to: int, further: int)
    requires
        from <= to <= further,
    ensures
        digits_value(s, from, to) <= digits_value(s, from, further),
    decreases further - to,
{
    if to < further {
        lemma_digits_value_grows(s, from, to, further - 1);
    }
}

/// Reads the number at `pos`.
fn parse_num(s: &Vec<char>, pos: usize) -> (r: Option<(Expr, usize)>)
    requires
        pos <= s.len(),
    ensures
        parsed_view(r) == number_at(s@, pos as int),
        r matches Some((_, p)) ==> pos < p <= s.len(),
{
    let mut i: usize = pos;
    let mut value: i64 = 0;
    let mut fits: bool = true;
    while i < s.len() && is_digit_char(s[i])
        invariant
            pos <= i <= s.len(),
            digits_end(s@, pos as int) == digits_end(s@, i as int),
            forall|k: int| pos <= k < i ==> is_digit(s@[k]),
            fits ==> value == digits_value(s@, pos as int, i as int),
            !fits ==> digits_value(s@, pos as int, i as int) > i64::MAX,
            0 <= value,
        decreases s.len() - i,
    {
        let c = s[i];
        let d: i64 = (c as u32 - '0' as u32) as i64;
        assert(d == digit_value(c));
        proof {
            lemma_digits_value_grows(s@, pos as int, i as int, i + 1);
        }
        if fits {
            if value > (i64::MAX - d) / 10 {
                fits = false;
            } else {
                value = value * 10 + d;
            }
        }
        i += 1;
    }
    if i == pos || !fits {
        None
    } else {
        Some((Expr::Num(value), i))
    }
}

/// The end of the word that has the shape of an identifier at `pos`.
fn word_end(s: &Vec<char>, pos: usize) -> (r: Option<usize>)
    requires
        pos <= s.len(),
    ensures
        match r {
            Some(end) => pos < end <= s.len() && word_shape_at(s@, pos as int) == Some(
                (s@.subrange(pos as int, end as int), end as int),
            ),
            None => word_shape_at(s@, pos as int) is None,
        },
{
    if pos < s.len() && (is_letter_char(s[pos]) || s[pos] == '_') {
        let mut i: usize = pos + 1;
        while i < s.len() && (is_letter_char(s[i]) || is_digit_char(s[i]) || s[i] == '_')
            invariant
                pos < i <= s.len(),
                identifier_end(s@, pos + 1) == identifier_end(s@, i as int),
            decreases s.len() - i,
        {
            i += 1;
        }
        Some(i)
    } else {
        None
    }
}

/// Reads the identifier at `pos`, or the boolean where the word is `true`
/// or `false`.
fn parse_id(s: &Vec<char>, pos: usize) -> (r: Option<(Expr, usize)>)
    requires
        pos <= s.len(),
    ensures
        parsed_view(r) == identifier_at(s@, pos as int),
        r matches Some((_, p)) ==> pos < p <= s.len(),
{
    match word_end(s, pos) {
        Some(end) => {
            let word = text_of(s, pos, end);
            let yes = "true".to_owned();
            let no = "false".to_owned();
            if word == yes {
                Some((Expr::True, end))
            } else if word == no {
                Some((Expr::False, end))
            } else {
                Some((Expr::Id(word), end))
            }
        },
        None => None,
    }
}

/// Reads the name at `pos` or behind spaces at `pos`, and the spaces after
/// it.
fn parse_name(s: &Vec<char>, pos: usize) -> (r: Option<(String, usize)>)
    requires
        pos <= s.len(),
    ensures
        match r {
            Some((name, p)) => name_at(s@, pos as int) == Some((name@, p as int)) && pos < p
                <= s.len(),
            None => name_at(s@, pos as int) is None,
        },
{
    let start = ws(s, pos);
    match word_end(s, start) {
        Some(end) => {
            let word = text_of(s, start, end);
            let yes = "true".to_owned();
            let no = "false".to_owned();
            if word == yes || word == no {
                None
            } else {
                Some((word, ws(s, end)))
            }
        },
        None => None,
    }
}

/// Reads the names from `pos` on.
fn parse_names(s: &Vec<char>, pos: usize) -> (r: (Vec<String>, usize))
    requires
        pos <= s.len(),
    ensures
        names_from(s@, pos as int) == (names_view(r.0@), r.1 as int),
        pos <= r.1 <= s.len(),
{
    let mut names: Vec<String> = Vec::new();
    let mut at: usize = pos;
    assert(names_view(names@) =~= Seq::empty());
    loop
        invariant
            pos <= at <= s.len(),
            names_from(s@, pos as int).0 == names_view(names@) + names_from(s@, at as int).0,
            names_from(s@, pos as int).1 == names_from(s@, at as int).1,
        decreases s.len() - at,
    {
        match parse_name(s, at) {
            Some((name, p)) => {
                let ghost before = names_view(names@);
                names.push(name);
                assert(names_view(names@) =~= before + seq![name@]);
                assert(before + (seq![name@] + names_from(s@, p as int).0) =~= (before
                    + seq![name@]) + names_from(s@, p as int).0);
                at = p;
            },
            None => {
                assert(names_view(names@) + Seq::<Seq<char>>::empty() =~= names_view(names@));
                return (names, at);
            },
        }
    }
}

/// Reads the empty list at `pos`.
fn parse_nil(s: &Vec<char>, pos: usize) -> (r: Option<(Expr, usize)>)
    requires
        pos <= s.len(),
    ensures
        parsed_view(r) == nil_at(s@, pos as int),
        r matches Some((_, p)) ==> pos < p <= s.len(),
{
    if word_stands_at(s, pos, "()") {
        proof {
            reveal_strlit("()");
        }
        Some((Expr::Nil, pos + 2))
    } else {
        None
    }
}

/// Reads the primitive of one operand at `pos` or behind spaces at `pos`.
fn parse_un_prim(s: &Vec<char>, pos: usize) -> (r: Option<(UnPrim, usize)>)
    requires
        pos <= s.len(),
    ensures
        match r {
            Some((op, p)) => unary_primitive_at(s@, pos as int) == Some((op, p as int)) && pos
                <= p <= s.len(),
            None => unary_primitive_at(s@, pos as int) is None,
        },
{
    if let Some(p) = keyword(s, pos, "add1") {
        Some((UnPrim::Add1, p))
    } else if let Some(p) = keyword(s, pos, "sub1") {
        Some((UnPrim::Sub1, p))
    } else if let Some(p) = keyword(s, pos, "zero?") {
        Some((UnPrim::IsZero, p))
    } else if let Some(p) = keyword(s, pos, "num?") {
        Some((UnPrim::IsNum, p))
    } else if let Some(p) = keyword(s, pos, "not") {
        Some((UnPrim::Not, p))
    } else {
        None
    }
}

/// Reads the primitive of two operands at `pos` or behind spaces at `pos`.
fn parse_bin_prim(s: &Vec<char>, pos: usize) -> (r: Option<(BinPrim, usize)>)
    requires
        pos <= s.len(),
    ensures
        match r {
            Some((op, p)) => binary_primitive_at(s@, pos as int) == Some((op, p as int)) && pos
                <= p <= s.len(),
            None => binary_primitive_at(s@, pos as int) is None,
        },
{
    let start = ws(s, pos);
    if start >= s.len() {
        return None;
    }
    let c = s[start];
    let op = if c == '+' {
        BinPrim::Plus
    } else if c == '-' {
        BinPrim::Minus
    } else if c == '=' {
        BinPrim::Eq
    } else if c == '<' {
        BinPrim::Lt
    } else {
        return None;
    };
    Some((op, ws(s, start + 1)))
}

/// Reads the expression at `pos`: the first form that fits.
fn parse_expr(s: &Vec<char>, pos: usize) -> (r: Option<(Expr, usize)>)
    requires
        pos <= s.len(),
    ensures
        parsed_view(r) == expr_at(s@, pos as int),
        r matches Some((_, p)) ==> pos < p <= s.len(),
    decreases s.len() - pos, 2nat,
{
    if let Some(found) = parse_num(s, pos) {
        return Some(found);
    }
    if let Some(found) = parse_id(s, pos) {
        return Some(found);
    }
    if let Some(found) = parse_nil(s, pos) {
        return Some(found);
    }
    if let Some(found) = parse_un_prim_expr(s, pos) {
        return Some(found);
    }
    if let Some(found) = parse_bin_prim_expr(s, pos) {
        return Some(found);
    }
    if let Some(found) = parse_if_expr(s, pos) {
        return Some(found);
    }
    if let Some(found) = parse_let_expr(s, pos) {
        return Some(found);
    }
    if let Some(found) = parse_do_expr(s, pos) {
        return Some(found);
    }
    if let Some(found) = parse_def_expr(s, pos) {
        return Some(found);
    }
    parse_call_expr(s, pos)
}

/// Reads the expression at `pos` or behind spaces at `pos`, and the spaces
/// after it.
fn parse_spaced_expr(s: &Vec<char>, pos: usize) -> (r: Option<(Expr, usize)>)
    requires
        pos <= s.len(),
    ensures
        parsed_view(r) == spaced_expr_at(s@, pos as int),
        r matches Some((_, p)) ==> pos < p <= s.len(),
    decreases s.len() - pos, 3nat,
{
    let start = ws(s, pos);
    match parse_expr(s, start) {
        Some((e, p)) => Some((e, ws(s, p))),
        None => None,
    }
}

/// Reads the expressions from `pos` on.
fn parse_multiple_expr(s: &Vec<char>, pos: usize) -> (r: (Vec<Expr>, usize))
    requires
        pos <= s.len(),
    ensures
        exprs_from(s@, pos as int) == (exprs_view(r.0@), r.1 as int),
        pos <= r.1 <= s.len(),
    decreases s.len() - pos, 4nat,
{
    let mut exprs: Vec<Expr> = Vec::new();
    let mut at: usize = pos;
    assert(exprs_view(exprs@) =~= Seq::empty());
    loop
        invariant
            pos <= at <= s.len(),
            exprs_from(s@, pos as int).0 == exprs_view(exprs@) + exprs_from(s@, at as int).0,
            exprs_from(s@, pos as int).1 == exprs_from(s@, at as int).1,
        decreases s.len() - at,
    {
        match parse_spaced_expr(s, at) {
            Some((e, p)) => {
                let ghost before = exprs_view(exprs@);
                let ghost model = e@;
                exprs.push(e);
                assert(exprs_view(exprs@) =~= before + seq![model]);
                assert(before + (seq![model] + exprs_from(s@, p as int).0) =~= (before
                    + seq![model]) + exprs_from(s@, p as int).0);
                at = p;
            },
            None => {
                assert(exprs_view(exprs@) + Seq::<ExprView>::empty() =~= exprs_view(exprs@));
                return (exprs, at);
            },
        }
    }
}

/// Reads the form `(op e)` at `pos`, for a primitive `op` of one operand.
fn parse_un_prim_expr(s: &Vec<char>, pos: usize) -> (r: Option<(Expr, usize)>)
    requires
        pos <= s.len(),
    ensures
        parsed_view(r) == unary_form_at(s@, pos as int),
        r matches Some((_, p)) ==> pos < p <= s.len(),
    decreases s.len() - pos, 1nat,
{
    let p0 = match symbol(s, pos, '(') {
        Some(p) => p,
        None => {
            return None;
        },
    };
    let (op, p1) = match parse_un_prim(s, p0) {
        Some(found) => found,
        None => {
            return None;
        },
    };
    let (e, p2) = match parse_spaced_expr(s, p1) {
        Some(found) => found,
        None => {
            return None;
        },
    };
    match symbol(s, p2, ')') {
        Some(p3) => Some((Expr::UnPrim(op, Box::new(e)), p3)),
        None => None,
    }
}

/// Reads the form `(op e1 e2)` at `pos`, for a primitive `op` of two
/// operands.
fn parse_bin_prim_expr(s: &Vec<char>, pos: usize) -> (r: Option<(Expr, usize)>)
    requires
        pos <= s.len(),
    ensures
        parsed_view(r) == binary_form_at(s@, pos as int),
        r matches Some((_, p)) ==> pos < p <= s.len(),
    decreases s.len() - pos, 1nat,
{
    let p0 = match symbol(s, pos, '(') {
        Some(p) => p,
        None => {
            return None;
        },
    };
    let (op, p1) = match parse_bin_prim(s, p0) {
        Some(found) => found,
        None => {
            return None;
        },
    };
    let (left, p2) = match parse_spaced_expr(s, p1) {
        Some(found) => found,
        None => {
            return None;
        },
    };
    let (right, p3) = match parse_spaced_expr(s, p2) {
        Some(found) => found,
        None => {
            return None;
        },
    };
    match symbol(s, p3, ')') {
        Some(p4) => Some((Expr::BinPrim(op, Box::new(left), Box::new(right)), p4)),
        None => None,
    }
}

/// Reads the form `(if test then else)` at `pos`.
fn parse_if_expr(s: &Vec<char>, pos: usize) -> (r: Option<(Expr, usize)>)
    requires
        pos <= s.len(),
    ensures
        parsed_view(r) == conditional_at(s@, pos as int),
        r matches Some((_, p)) ==> pos < p <= s.len(),
    decreases s.len() - pos, 1nat,
{
    let p0 = match symbol(s, pos, '(') {
        Some(p) => p,
        None => {
            return None;
        },
    };
    let p1 = match keyword(s, p0, "if") {
        Some(p) => p,
        None => {
            return None;
        },
    };
    let (test, p2) = match parse_spaced_expr(s, p1) {
        Some(found) => found,
        None => {
            return None;
        },
    };
    let (then, p3) = match parse_spaced_expr(s, p2) {
        Some(found) => found,
        None => {
            return None;
        },
    };
    let (otherwise, p4) = match parse_spaced_expr(s, p3) {
        Some(found) => found,
        None => {
            return None;
        },
    };
    match symbol(s, p4, ')') {
        Some(p5) => Some((Expr::If(Box::new(test), Box::new(then), Box::new(otherwise)), p5)),
        None => None,
    }
}

/// Reads the form `(f e1 e2 ...)` at `pos`.
fn parse_call_expr(s: &Vec<char>, pos: usize) -> (r: Option<(Expr, usize)>)
    requires
        pos <= s.len(),
    ensures
        parsed_view(r) == call_at(s@, pos as int),
        r matches Some((_, p)) ==> pos < p <= s.len(),
    decreases s.len() - pos, 1nat,
{
    let p0 = match symbol(s, pos, '(') {
        Some(p) => p,
        None => {
            return None;
        },
    };
    let (f, p1) = match parse_name(s, p0) {
        Some(found) => found,
        None => {
            return None;
        },
    };
    let (args, p2) = parse_multiple_expr(s, p1);
    match symbol(s, p2, ')') {
        Some(p3) => {
            proof {
                lemma_view_of_call(f, args);
            }
            Some((Expr::Call(f, args), p3))
        },
        None => None,
    }
}

/// Reads the binding `(name e)` at `pos`.
fn parse_let_binding(s: &Vec<char>, pos: usize) -> (r: Option<((String, Box<Expr>), usize)>)
    requires
        pos <= s.len(),
    ensures
        match r {
            Some((binding, p)) => binding_at(s@, pos as int) == Some(
                ((binding.0@, (*binding.1)@), p as int),
            ) && pos < p <= s.len(),
            None => binding_at(s@, pos as int) is None,
        },
    decreases s.len() - pos, 1nat,
{
    let p0 = match symbol(s, pos, '(') {
        Some(p) => p,
        None => {
            return None;
        },
    };
    let (name, p1) = match parse_name(s, p0) {
        Some(found) => found,
        None => {
            return None;
        },
    };
    let (e, p2) = match parse_spaced_expr(s, p1) {
        Some(found) => found,
        None => {
            return None;
        },
    };
    match symbol(s, p2, ')') {
        Some(p3) => Some(((name, Box::new(e)), p3)),
        None => None,
    }
}

/// Reads the bindings from `pos` on, with spaces around each.
fn parse_bindings(s: &Vec<char>, pos: usize) -> (r: (Vec<(String, Box<Expr>)>, usize))
    requires
        pos <= s.len(),
    ensures
        bindings_from(s@, pos as int) == (bindings_view(r.0@), r.1 as int),
        pos <= r.1 <= s.len(),
    decreases s.len() - pos, 4nat,
{
    let mut bindings: Vec<(String, Box<Expr>)> = Vec::new();
    let mut at: usize = pos;
    assert(bindings_view(bindings@) =~= Seq::empty());
    loop
        invariant
            pos <= at <= s.len(),
            bindings_from(s@, pos as int).0 == bindings_view(bindings@) + bindings_from(
                s@,
                at as int,
            ).0,
            bindings_from(s@, pos as int).1 == bindings_from(s@, at as int).1,
        decreases s.len() - at,
    {
        let start = ws(s, at);
        match parse_let_binding(s, start) {
            Some((binding, p)) => {
                let ghost before = bindings_view(bindings@);
                let ghost model = (binding.0@, (*binding.1)@);
                let next = ws(s, p);
                bindings.push(binding);
                assert(bindings_view(bindings@) =~= before + seq![model]);
                assert(before + (seq![model] + bindings_from(s@, next as int).0) =~= (before
                    + seq![model]) + bindings_from(s@, next as int).0);
                at = next;
            },
            None => {
                assert(bindings_view(bindings@) + Seq::<(Seq<char>, ExprView)>::empty()
                    =~= bindings_view(bindings@));
                return (bindings, at);
            },
        }
    }
}

/// Reads the form `(let (bindings) body)` at `pos`.
fn parse_let_expr(s: &Vec<char>, pos: usize) -> (r: Option<(Expr, usize)>)
    requires
        pos <= s.len(),
    ensures
        parsed_view(r) == let_at(s@, pos as int),
        r matches Some((_, p)) ==> pos < p <= s.len(),
    decreases s.len() - pos, 1nat,
{
    let p0 = match symbol(s, pos, '(') {
        Some(p) => p,
        None => {
            return None;
        },
    };
    let p1 = match keyword(s, p0, "let") {
        Some(p) => p,
        None => {
            return None;
        },
    };
    let p2 = match symbol(s, p1, '(') {
        Some(p) => p,
        None => {
            return None;
        },
    };
    let (bindings, end) = parse_bindings(s, p2);
    let p3 = match symbol(s, end, ')') {
        Some(p) => p,
        None => {
            return None;
        },
    };
    let (body, p4) = match parse_spaced_expr(s, p3) {
        Some(found) => found,
        None => {
            return None;
        },
    };
    match symbol(s, p4, ')') {
        Some(p5) => {
            let body = Box::new(body);
            proof {
                lemma_view_of_let(bindings, body);
            }
            Some((Expr::Let(bindings, body), p5))
        },
        None => None,
    }
}

/// Reads the form `(do e1 e2 ...)` at `pos`.
fn parse_do_expr(s: &Vec<char>, pos: usize) -> (r: Option<(Expr, usize)>)
    requires
        pos <= s.len(),
    ensures
        parsed_view(r) == do_at(s@, pos as int),
        r matches Some((_, p)) ==> pos < p <= s.len(),
    decreases s.len() - pos, 1nat,
{
    let p0 = match symbol(s, pos, '(') {
        Some(p) => p,
        None => {
            return None;
        },
    };
    let p1 = match keyword(s, p0, "do") {
        Some(p) => p,
        None => {
            return None;
        },
    };
    let (exprs, end) = parse_multiple_expr(s, p1);
    if exprs.len() == 0 {
        return None;
    }
    match symbol(s, end, ')') {
        Some(p2) => {
            proof {
                lemma_view_of_do(exprs);
            }
            Some((Expr::Do(exprs), p2))
        },
        None => None,
    }
}

/// Reads the form `(define (name params) body)` at `pos`.
fn parse_def_expr(s: &Vec<char>, pos: usize) -> (r: Option<(Expr, usize)>)
    requires
        pos <= s.len(),
    ensures
        parsed_view(r) == definition_at(s@, pos as int),
        r matches Some((_, p)) ==> pos < p <= s.len(),
    decreases s.len() - pos, 1nat,
{
    let p0 = match symbol(s, pos, '(') {
        Some(p) => p,
        None => {
            return None;
        },
    };
    let p1 = match keyword(s, p0, "define") {
        Some(p) => p,
        None => {
            return None;
        },
    };
    let p2 = match symbol(s, p1, '(') {
        Some(p) => p,
        None => {
            return None;
        },
    };
    let (name, p3) = match parse_name(s, p2) {
        Some(found) => found,
        None => {
            return None;
        },
    };
    let (params, end) = parse_names(s, p3);
    let p4 = match symbol(s, end, ')') {
        Some(p) => p,
        None => {
            return None;
        },
    };
    let (body, p5) = match parse_spaced_expr(s, p4) {
        Some(found) => found,
        None => {
            return None;
        },
    };
    match symbol(s, p5, ')') {
        Some(p6) => Some((Expr::Define(name, params, Box::new(body)), p6)),
        None => None,
    }
}

/// Reads the program that `input` holds: its expressions, with white space
/// between them.
///
/// The text is rejected where anything but white space follows the last
/// expression that can be read; the error quotes what follows.
pub fn parse(input: &str) -> (r: Result<Vec<Expr>, String>)
    ensures
        match r {
            Ok(exprs) => program_of(input@) == Ok::<Seq<ExprView>, Seq<char>>(exprs_view(exprs@)),
            Err(message) => program_of(input@) == Err::<Seq<ExprView>, Seq<char>>(message@),
        },
{
    let s = chars_of(input);
    let (exprs, end) = parse_multiple_expr(&s, 0);
    let mut i: usize = end;
    while i < s.len() && is_white_space_char(s[i])
        invariant
            end <= i <= s.len(),
            forall|k: int| end <= k < i ==> is_white_space(#[trigger] s@[k]),
        decreases s.len() - i,
    {
        i += 1;
    }
    if i == s.len() {
        Ok(exprs)
    } else {
        let mut message = "Parsing incomplete. Remaining input: '".to_owned();
        let rest = text_of(&s, end, s.len());
        message.append(rest.as_str());
        message.append("'");
        Err(message)
    }
}

} // verus!
