//! Quantities inside the braces of a component: values, numbers and units.
use vstd::prelude::*;

use crate::ast::{Number, NumberView, Quantity, QuantityValue, Text, Value, ValueView};
use crate::context::Context;
use crate::encoding::byte_len;
use crate::extensions::Extensions;
use crate::encoding::str_chars;
use crate::ast::{is_blank, is_trim_of};
use crate::located::Located;
use crate::parser::is_part_invalid;
use crate::parser::parser::{
    first_not_in, lemma_first_not_in, lemma_tokens_ok_subrange, offset_in, text_of, tokens_span, tokens_text, KindClass,
    LineParser,
};
use crate::parser::token_stream::{chars_between, token_ok, tokens_ok, Token, TokenKind};
use crate::parser::{ParserError, ParserWarning};
use crate::span::Span;

verus! {

/// Whether `s` is one or more decimal digits.
pub open spec fn is_digits(s: Seq<char>) -> bool {
    s.len() > 0 && forall|k: int| 0 <= k < s.len() ==> '0' <= #[trigger] s[k] && s[k] <= '9'
}

/// The value of the decimal digits `s`.
pub open spec fn digits_value(s: Seq<char>) -> int
    decreases s.len(),
{
    if s.len() == 0 {
        0
    } else {
        digits_value(s.drop_last()) * 10 + (s.last() as int - '0' as int)
    }
}

/// `s` read as a decimal `u32`, when it is one.
pub open spec fn parse_u32_spec(s: Seq<char>) -> Option<u32> {
    if is_digits(s) && digits_value(s) <= u32::MAX {
        Some(digits_value(s) as u32)
    } else {
        None
    }
}

/// A longer run of digits is worth at least as much.
proof fn lemma_digits_mono(s: Seq<char>, k: int)
    requires
        0 <= k <= s.len(),
        forall|j: int| 0 <= j < s.len() ==> '0' <= #[trigger] s[j] && s[j] <= '9',
    ensures
        digits_value(s.take(k)) <= digits_value(s),
        0 <= digits_value(s.take(k)),
    decreases s.len() - k,
{
    if k < s.len() {
        lemma_digits_mono(s, k + 1);
        assert(s.take(k + 1).drop_last() =~= s.take(k));
        lemma_digits_nonneg(s.take(k));
    } else {
        assert(s.take(k) =~= s);
        lemma_digits_nonneg(s);
    }
}

/// Digits are worth zero or more.
proof fn lemma_digits_nonneg(s: Seq<char>)
    requires
        forall|j: int| 0 <= j < s.len() ==> '0' <= #[trigger] s[j] && s[j] <= '9',
    ensures
        0 <= digits_value(s),
    decreases s.len(),
{
    if s.len() > 0 {
        lemma_digits_nonneg(s.drop_last());
    }
}

/// Reads `s` as a decimal `u32`; `None` when it is not digits or does not
/// fit.
pub fn parse_u32(s: &str) -> (r: Option<u32>)
    ensures
        r == parse_u32_spec(s@),
{
    let cs = str_chars(s);
    digits_u32(cs.as_slice())
}

/// Reads the characters `cs` as a decimal `u32`; `None` when they are not
/// digits or do not fit.
pub fn digits_u32(cs: &[char]) -> (r: Option<u32>)
    ensures
        r == parse_u32_spec(cs@),
{
    if cs.len() == 0 {
        return None;
    }
    let mut acc: u32 = 0;
    let mut i: usize = 0;
    while i < cs.len()
        invariant
            0 <= i <= cs@.len(),
            forall|j: int| 0 <= j < i ==> '0' <= #[trigger] cs@[j] && cs@[j] <= '9',
            acc == digits_value(cs@.take(i as int)),
        decreases cs@.len() - i,
    {
        let c = cs[i];
        if !('0' <= c && c <= '9') {
            return None;
        }
        let d = (c as u32) - ('0' as u32);
        proof {
            assert(cs@.take(i + 1).drop_last() =~= cs@.take(i as int));
        }
        match acc.checked_mul(10) {
            Some(m) => match m.checked_add(d) {
                Some(n) => {
                    acc = n;
                },
                None => {
                    proof {
                        lemma_overflow(cs@, i as int);
                    }
                    return None;
                },
            },
            None => {
                proof {
                    lemma_digits_nonneg(cs@.take(i as int));
                    lemma_overflow(cs@, i as int);
                }
                return None;
            },
        }
        i = i + 1;
    }
    proof {
        assert(cs@.take(i as int) =~= cs@);
    }
    Some(acc)
}

/// Once a prefix of digits is worth more than a `u32`, so is every string
/// of digits that starts with it, and a string with another character is
/// not digits.
proof fn lemma_overflow(s: Seq<char>, i: int)
    requires
        0 <= i < s.len(),
        forall|j: int| 0 <= j <= i ==> '0' <= #[trigger] s[j] && s[j] <= '9',
        digits_value(s.take(i + 1)) > u32::MAX,
    ensures
        parse_u32_spec(s) is None,
{
    if is_digits(s) {
        lemma_digits_mono(s, i + 1);
    }
}

/// The characters of a token.
pub open spec fn tok_chars(cs: Seq<char>, t: Token) -> Seq<char> {
    chars_between(cs, t.span.start_spec() as int, t.span.end_spec() as int)
}

/// The kind of the token at `p`, or [TokenKind::Eof] past the end.
pub open spec fn kind_at(ts: Seq<Token>, p: int) -> TokenKind {
    if 0 <= p < ts.len() {
        ts[p].kind
    } else {
        TokenKind::Eof
    }
}

/// The position after the white space and comments from `p` on.
pub open spec fn blank_end(ts: Seq<Token>, p: int) -> int {
    first_not_in(ts, p, KindClass::Blank)
}

/// The errors for the integers at these spans that do not fit.
pub open spec fn int_errors(bad: Seq<Span>) -> Seq<ParserError> {
    bad.map_values(|s: Span| ParserError::ParseInt { bad_bit: s })
}

/// An integer at `p`: its value, 0 when it does not fit; the position
/// after it; the spans of the integers that did not fit.
pub open spec fn int_spec(cs: Seq<char>, ts: Seq<Token>, p: int) -> (Option<u32>, int, Seq<Span>) {
    if kind_at(ts, p) == TokenKind::Int {
        match parse_u32_spec(tok_chars(cs, ts[p])) {
            Some(v) => (Some(v), p + 1, seq![]),
            None => (Some(0u32), p + 1, seq![ts[p].span]),
        }
    } else {
        (None, p, seq![])
    }
}

/// A decimal number at `p`, with the digits as written.
pub open spec fn float_spec(cs: Seq<char>, ts: Seq<Token>, p: int) -> (Option<NumberView>, int, Seq<Span>) {
    if kind_at(ts, p) == TokenKind::Float {
        (Some(NumberView::Decimal(tok_chars(cs, ts[p]))), p + 1, seq![])
    } else {
        (None, p, seq![])
    }
}

/// An integer or a decimal number at `p`.
pub open spec fn num_spec(cs: Seq<char>, ts: Seq<Token>, p: int) -> (Option<NumberView>, int, Seq<Span>) {
    if kind_at(ts, p) == TokenKind::Int {
        let (v, q, e) = int_spec(cs, ts, p);
        (Some(NumberView::Int(v.unwrap())), q, e)
    } else {
        float_spec(cs, ts, p)
    }
}

/// A fraction `a / b` at `p`.
pub open spec fn frac_spec(cs: Seq<char>, ts: Seq<Token>, p: int) -> (Option<(u32, u32)>, int, Seq<Span>) {
    let (a, p1, e1) = int_spec(cs, ts, p);
    if a is None {
        (None, p1, e1)
    } else {
        let p2 = blank_end(ts, p1);
        if kind_at(ts, p2) != TokenKind::Slash {
            (None, p2, e1)
        } else {
            let (b, p4, e2) = int_spec(cs, ts, blank_end(ts, p2 + 1));
            match b {
                Some(bv) => (Some((a.unwrap(), bv)), p4, e1 + e2),
                None => (None, p4, e1 + e2),
            }
        }
    }
}

/// A mixed number `w a / b` at `p`.
pub open spec fn mixed_spec(cs: Seq<char>, ts: Seq<Token>, p: int) -> (Option<(u32, u32, u32)>, int, Seq<Span>) {
    let (w, p1, e1) = int_spec(cs, ts, p);
    if w is None {
        (None, p1, e1)
    } else {
        let (f, p3, e2) = frac_spec(cs, ts, blank_end(ts, p1));
        match f {
            Some(ab) => (Some((w.unwrap(), ab.0, ab.1)), p3, e1 + e2),
            None => (None, p3, e1 + e2),
        }
    }
}

/// A range `a - b` at `p`.
pub open spec fn range_spec(cs: Seq<char>, ts: Seq<Token>, p: int) -> (Option<(NumberView, NumberView)>, int, Seq<Span>) {
    let (a, p1, e1) = num_spec(cs, ts, p);
    if a is None {
        (None, p1, e1)
    } else {
        let p2 = blank_end(ts, p1);
        if kind_at(ts, p2) != TokenKind::Minus {
            (None, p2, e1)
        } else {
            let (b, p4, e2) = num_spec(cs, ts, blank_end(ts, p2 + 1));
            match b {
                Some(bv) => (Some((a.unwrap(), bv)), p4, e1 + e2),
                None => (None, p4, e1 + e2),
            }
        }
    }
}

/// A numeric value that starts with an integer at `q`: a mixed number, a
/// fraction, a range or the integer, tried in that order; the errors of
/// the failed tries stay.
pub open spec fn numeric_int_spec(cs: Seq<char>, ts: Seq<Token>, q: int) -> (Option<ValueView>, int, Seq<Span>) {
    let (m, pm, em) = mixed_spec(cs, ts, q);
    let (f, pf, ef) = frac_spec(cs, ts, q);
    let (r, pr, er) = range_spec(cs, ts, q);
    let (i, pi, ei) = int_spec(cs, ts, q);
    if m is Some {
        let w = m.unwrap();
        (Some(ValueView::Number(NumberView::Mixed { whole: w.0, num: w.1, den: w.2 })), pm, em)
    } else if f is Some {
        let ab = f.unwrap();
        (Some(ValueView::Number(NumberView::Fraction { num: ab.0, den: ab.1 })), pf, em + ef)
    } else if r is Some {
        let ab = r.unwrap();
        (Some(ValueView::Range(ab.0, ab.1)), pr, em + ef + er)
    } else {
        (Some(ValueView::Number(NumberView::Int(i.unwrap()))), pi, em + ef + er + ei)
    }
}

/// A numeric value that starts with a decimal at `q`: a range or the
/// decimal.
pub open spec fn numeric_float_spec(cs: Seq<char>, ts: Seq<Token>, q: int) -> (Option<ValueView>, int, Seq<Span>) {
    let (r, pr, er) = range_spec(cs, ts, q);
    let (f, pf, ef) = float_spec(cs, ts, q);
    if r is Some {
        let ab = r.unwrap();
        (Some(ValueView::Range(ab.0, ab.1)), pr, er)
    } else {
        (Some(ValueView::Number(f.unwrap())), pf, er + ef)
    }
}

/// A numeric value after white space and comments at `p`.
pub open spec fn numeric_spec(cs: Seq<char>, ts: Seq<Token>, p: int) -> (Option<ValueView>, int, Seq<Span>) {
    let q = blank_end(ts, p);
    if kind_at(ts, q) == TokenKind::Int {
        numeric_int_spec(cs, ts, q)
    } else if kind_at(ts, q) == TokenKind::Float {
        numeric_float_spec(cs, ts, q)
    } else {
        (None, q, seq![])
    }
}

/// The number that a number token holds: an integer by its digits, 0
/// when it does not fit in a `u32`; a decimal by its characters as
/// written.
pub open spec fn token_number(cs: Seq<char>, t: Token) -> NumberView {
    if t.kind == TokenKind::Int {
        NumberView::Int(token_u32(cs, t))
    } else {
        NumberView::Decimal(tok_chars(cs, t))
    }
}

/// The integer that an integer token holds, 0 when it does not fit in a
/// `u32`.
pub open spec fn token_u32(cs: Seq<char>, t: Token) -> u32 {
    match parse_u32_spec(tok_chars(cs, t)) {
        Some(v) => v,
        None => 0,
    }
}

/// A lone number is its own value: an integer or a decimal that is not
/// followed (white space and comments aside) by a `-`, nor, for an
/// integer, by a `/` or by a fraction.
pub proof fn lemma_lone_number(cs: Seq<char>, ts: Seq<Token>, p: int, a: int, n: int)
    requires
        a == blank_end(ts, p),
        kind_at(ts, a) == TokenKind::Int || kind_at(ts, a) == TokenKind::Float,
        n == blank_end(ts, a + 1),
        kind_at(ts, n) != TokenKind::Minus,
        kind_at(ts, n) != TokenKind::Slash,
        kind_at(ts, a) == TokenKind::Int ==> kind_at(ts, n) != TokenKind::Int || kind_at(
            ts,
            blank_end(ts, n + 1),
        ) != TokenKind::Slash,
    ensures
        numeric_spec(cs, ts, p).0 == Some(ValueView::Number(token_number(cs, ts[a]))),
        numeric_spec(cs, ts, p).1 == a + 1,
{
}

/// An integer, a `/` and an integer (white space and comments aside) make
/// the fraction of the first over the second.
pub proof fn lemma_fraction_value(cs: Seq<char>, ts: Seq<Token>, p: int, a: int, s: int, b: int)
    requires
        a == blank_end(ts, p),
        kind_at(ts, a) == TokenKind::Int,
        s == blank_end(ts, a + 1),
        kind_at(ts, s) == TokenKind::Slash,
        b == blank_end(ts, s + 1),
        kind_at(ts, b) == TokenKind::Int,
    ensures
        numeric_spec(cs, ts, p).0 == Some(
            ValueView::Number(NumberView::Fraction { num: token_u32(cs, ts[a]), den: token_u32(cs, ts[b]) }),
        ),
        numeric_spec(cs, ts, p).1 == b + 1,
{
}

/// An integer followed by a fraction (white space and comments aside) is
/// a mixed number: the whole part, then the fraction's numerator and
/// denominator.
pub proof fn lemma_mixed_value(cs: Seq<char>, ts: Seq<Token>, p: int, w: int, a: int, s: int, b: int)
    requires
        w == blank_end(ts, p),
        kind_at(ts, w) == TokenKind::Int,
        a == blank_end(ts, w + 1),
        kind_at(ts, a) == TokenKind::Int,
        s == blank_end(ts, a + 1),
        kind_at(ts, s) == TokenKind::Slash,
        b == blank_end(ts, s + 1),
        kind_at(ts, b) == TokenKind::Int,
    ensures
        numeric_spec(cs, ts, p).0 == Some(
            ValueView::Number(
                NumberView::Mixed {
                    whole: token_u32(cs, ts[w]),
                    num: token_u32(cs, ts[a]),
                    den: token_u32(cs, ts[b]),
                },
            ),
        ),
        numeric_spec(cs, ts, p).1 == b + 1,
{
}

/// A value written as a number, a `-` and a number (white space and
/// comments aside) is the range from the number of its first token to
/// the number of its last, whether the first is an integer or a decimal,
/// and the value ends after its last token.
pub proof fn lemma_range_from_first_to_last(cs: Seq<char>, ts: Seq<Token>, p: int, a: int, m: int, b: int)
    requires
        a == blank_end(ts, p),
        kind_at(ts, a) == TokenKind::Int || kind_at(ts, a) == TokenKind::Float,
        m == blank_end(ts, a + 1),
        kind_at(ts, m) == TokenKind::Minus,
        b == blank_end(ts, m + 1),
        kind_at(ts, b) == TokenKind::Int || kind_at(ts, b) == TokenKind::Float,
    ensures
        numeric_spec(cs, ts, p).0 == Some(ValueView::Range(token_number(cs, ts[a]), token_number(cs, ts[b]))),
        numeric_spec(cs, ts, p).1 == b + 1,
{
}

/// The errors of two runs, one after the other.
proof fn lemma_int_errors_concat(a: Seq<Span>, b: Seq<Span>)
    ensures
        int_errors(a + b) == int_errors(a) + int_errors(b),
        int_errors(seq![]) == Seq::<ParserError>::empty(),
{
    assert(int_errors(a + b) =~= int_errors(a) + int_errors(b));
    assert(int_errors(seq![]) =~= Seq::<ParserError>::empty());
}

/// Parses an integer; one that does not fit in a `u32` is an error and
/// counts as 0.
pub fn integer(line: &mut LineParser) -> (r: Option<u32>)
    requires
        old(line).wf(),
    ensures
        final(line).wf(),
        ({
            let (v, p, e) = int_spec(old(line).input_spec()@, old(line).tokens_spec(), old(line).pos_spec());
            r == v && final(line).advanced(old(line), p, int_errors(e))
        }),
{
    proof {
        lemma_int_errors_concat(seq![], seq![]);
    }
    let tok = match line.consume(TokenKind::Int) {
        Ok(t) => t,
        Err(_) => {
            proof {
                assert(line.errors_spec() =~= line.errors_spec() + int_errors(seq![]));
            }
            return None;
        },
    };
    let ghost mid = *line;
    proof {
        assert(crate::parser::token_stream::token_ok(line.input_spec()@, line.tokens_spec()[line.pos_spec() - 1]));
    }
    let s = line.as_str(tok);
    match parse_u32(s) {
        Some(n) => {
            proof {
                assert(line.errors_spec() =~= line.errors_spec() + int_errors(seq![]));
            }
            Some(n)
        },
        None => {
            line.error(ParserError::ParseInt { bad_bit: tok.span });
            proof {
                assert(int_errors(seq![tok.span]) =~= seq![ParserError::ParseInt { bad_bit: tok.span }]);
                assert(line.errors_spec() =~= mid.errors_spec() + int_errors(seq![tok.span]));
            }
            Some(0)
        },
    }
}

/// Parses a decimal number, keeping its digits as written.
pub fn float(line: &mut LineParser) -> (r: Option<Number>)
    requires
        old(line).wf(),
    ensures
        final(line).wf(),
        ({
            let (v, p, e) = float_spec(old(line).input_spec()@, old(line).tokens_spec(), old(line).pos_spec());
            &&& r is Some <==> v is Some
            &&& r is Some ==> r.unwrap()@ == v.unwrap()
            &&& final(line).advanced(old(line), p, int_errors(e))
        }),
{
    proof {
        lemma_int_errors_concat(seq![], seq![]);
        assert(line.errors_spec() =~= line.errors_spec() + int_errors(seq![]));
    }
    let tok = match line.consume(TokenKind::Float) {
        Ok(t) => t,
        Err(_) => {
            return None;
        },
    };
    proof {
        assert(crate::parser::token_stream::token_ok(line.input_spec()@, line.tokens_spec()[line.pos_spec() - 1]));
    }
    let s = line.as_str(tok);
    Some(Number::Decimal(s.to_owned()))
}

/// Parses an integer or a decimal number.
pub fn num(line: &mut LineParser) -> (r: Option<Number>)
    requires
        old(line).wf(),
    ensures
        final(line).wf(),
        ({
            let (v, p, e) = num_spec(old(line).input_spec()@, old(line).tokens_spec(), old(line).pos_spec());
            &&& r is Some <==> v is Some
            &&& r is Some ==> r.unwrap()@ == v.unwrap()
            &&& final(line).advanced(old(line), p, int_errors(e))
        }),
{
    if line.at(TokenKind::Int) {
        match integer(line) {
            Some(n) => Some(Number::Int(n)),
            None => None,
        }
    } else {
        float(line)
    }
}

/// Parses a fraction `a / b`, white space and comments allowed around the
/// slash.
pub fn frac(line: &mut LineParser) -> (r: Option<(u32, u32)>)
    requires
        old(line).wf(),
    ensures
        final(line).wf(),
        ({
            let (v, p, e) = frac_spec(old(line).input_spec()@, old(line).tokens_spec(), old(line).pos_spec());
            r == v && final(line).advanced(old(line), p, int_errors(e))
        }),
{
    let ghost ts = line.tokens_spec();
    let ghost cs = line.input_spec()@;
    let ghost l0 = *line;
    let a = match integer(line) {
        Some(a) => a,
        None => {
            return None;
        },
    };
    let ghost l1 = *line;
    let _ = line.ws_comments();
    proof {
        lemma_first_not_in(ts, l1.pos_spec(), KindClass::Blank);
        assert(line.errors_spec() == l1.errors_spec());
    }
    match line.consume(TokenKind::Slash) {
        Ok(_) => {},
        Err(_) => {
            return None;
        },
    }
    let _ = line.ws_comments();
    let ghost l3 = *line;
    let b = integer(line);
    proof {
        let (_, _, e1) = int_spec(cs, ts, l0.pos_spec());
        let (_, _, e2) = int_spec(cs, ts, l3.pos_spec());
        lemma_int_errors_concat(e1, e2);
        assert(line.errors_spec() =~= l0.errors_spec() + int_errors(e1 + e2));
    }
    match b {
        Some(b) => Some((a, b)),
        None => None,
    }
}

/// Parses a mixed number `w a / b`.
pub fn mixed_num(line: &mut LineParser) -> (r: Option<(u32, u32, u32)>)
    requires
        old(line).wf(),
    ensures
        final(line).wf(),
        ({
            let (v, p, e) = mixed_spec(old(line).input_spec()@, old(line).tokens_spec(), old(line).pos_spec());
            r == v && final(line).advanced(old(line), p, int_errors(e))
        }),
{
    let ghost ts = line.tokens_spec();
    let ghost cs = line.input_spec()@;
    let ghost l0 = *line;
    let w = match integer(line) {
        Some(w) => w,
        None => {
            return None;
        },
    };
    let _ = line.ws_comments();
    let ghost l2 = *line;
    let f = frac(line);
    proof {
        let (_, _, e1) = int_spec(cs, ts, l0.pos_spec());
        let (_, _, e2) = frac_spec(cs, ts, l2.pos_spec());
        lemma_int_errors_concat(e1, e2);
        assert(line.errors_spec() =~= l0.errors_spec() + int_errors(e1 + e2));
    }
    match f {
        Some((a, b)) => Some((w, a, b)),
        None => None,
    }
}

/// Parses a range `a - b` of integers or decimals.
pub fn range(line: &mut LineParser) -> (r: Option<(Number, Number)>)
    requires
        old(line).wf(),
    ensures
        final(line).wf(),
        ({
            let (v, p, e) = range_spec(old(line).input_spec()@, old(line).tokens_spec(), old(line).pos_spec());
            &&& r is Some <==> v is Some
            &&& r is Some ==> r.unwrap().0@ == v.unwrap().0 && r.unwrap().1@ == v.unwrap().1
            &&& final(line).advanced(old(line), p, int_errors(e))
        }),
{
    let ghost ts = line.tokens_spec();
    let ghost cs = line.input_spec()@;
    let ghost l0 = *line;
    let a = match num(line) {
        Some(a) => a,
        None => {
            return None;
        },
    };
    let ghost l1 = *line;
    let _ = line.ws_comments();
    proof {
        lemma_first_not_in(ts, l1.pos_spec(), KindClass::Blank);
    }
    match line.consume(TokenKind::Minus) {
        Ok(_) => {},
        Err(_) => {
            return None;
        },
    }
    let _ = line.ws_comments();
    let ghost l3 = *line;
    let b = num(line);
    proof {
        let (_, _, e1) = num_spec(cs, ts, l0.pos_spec());
        let (_, _, e2) = num_spec(cs, ts, l3.pos_spec());
        lemma_int_errors_concat(e1, e2);
        assert(line.errors_spec() =~= l0.errors_spec() + int_errors(e1 + e2));
    }
    match b {
        Some(b) => Some((a, b)),
        None => None,
    }
}

/// Parses a numeric value that starts with an integer.
fn numeric_int(line: &mut LineParser) -> (r: Value)
    requires
        old(line).wf(),
        old(line).peek_spec() == TokenKind::Int,
    ensures
        final(line).wf(),
        ({
            let (v, p, e) = numeric_int_spec(old(line).input_spec()@, old(line).tokens_spec(), old(line).pos_spec());
            &&& v is Some && r@ == v.unwrap()
            &&& final(line).advanced(old(line), p, int_errors(e))
        }),
{
    let ghost ts = line.tokens_spec();
    let ghost cs = line.input_spec()@;
    let ghost l0 = *line;
    let q = line.checkpoint();
    let ghost (_, _, em) = mixed_spec(cs, ts, q as int);
    let ghost (_, _, ef) = frac_spec(cs, ts, q as int);
    let ghost (_, _, er) = range_spec(cs, ts, q as int);
    let ghost (_, _, ei) = int_spec(cs, ts, q as int);
    proof {
        lemma_int_errors_concat(em, ef);
        lemma_int_errors_concat(em + ef, er);
        lemma_int_errors_concat(em + ef + er, ei);
    }
    match mixed_num(line) {
        Some((w, a, b)) => {
            return Value::Number(Number::Mixed { whole: w, num: a, den: b });
        },
        None => {
            line.rewind(q);
        },
    }
    match frac(line) {
        Some((a, b)) => {
            proof {
                assert(line.errors_spec() =~= l0.errors_spec() + int_errors(em + ef));
            }
            return Value::Number(Number::Fraction { num: a, den: b });
        },
        None => {
            line.rewind(q);
        },
    }
    match range(line) {
        Some((a, b)) => {
            proof {
                assert(line.errors_spec() =~= l0.errors_spec() + int_errors(em + ef + er));
            }
            return Value::Range(a, b);
        },
        None => {
            line.rewind(q);
        },
    }
    let n = integer(line);
    proof {
        assert(line.errors_spec() =~= l0.errors_spec() + int_errors(em + ef + er + ei));
    }
    Value::Number(Number::Int(n.unwrap()))
}

/// Parses a numeric value that starts with a decimal.
fn numeric_float(line: &mut LineParser) -> (r: Value)
    requires
        old(line).wf(),
        old(line).peek_spec() == TokenKind::Float,
    ensures
        final(line).wf(),
        ({
            let (v, p, e) = numeric_float_spec(old(line).input_spec()@, old(line).tokens_spec(), old(line).pos_spec());
            &&& v is Some && r@ == v.unwrap()
            &&& final(line).advanced(old(line), p, int_errors(e))
        }),
{
    let ghost ts = line.tokens_spec();
    let ghost cs = line.input_spec()@;
    let ghost l0 = *line;
    let q = line.checkpoint();
    let ghost (_, _, er) = range_spec(cs, ts, q as int);
    let ghost (_, _, ef) = float_spec(cs, ts, q as int);
    proof {
        lemma_int_errors_concat(er, ef);
    }
    match range(line) {
        Some((a, b)) => {
            return Value::Range(a, b);
        },
        None => {
            line.rewind(q);
        },
    }
    let f = float(line);
    proof {
        assert(line.errors_spec() =~= l0.errors_spec() + int_errors(er + ef));
    }
    Value::Number(f.unwrap())
}

/// Parses a numeric value after white space and comments: a mixed number,
/// a fraction, a range or an integer when it starts with an integer; a
/// range or a decimal when it starts with a decimal. Errors of the failed
/// tries stay.
pub fn numeric_value(line: &mut LineParser) -> (r: Option<Value>)
    requires
        old(line).wf(),
    ensures
        final(line).wf(),
        ({
            let (v, p, e) = numeric_spec(old(line).input_spec()@, old(line).tokens_spec(), old(line).pos_spec());
            &&& r is Some <==> v is Some
            &&& r is Some ==> r.unwrap()@ == v.unwrap()
            &&& final(line).advanced(old(line), p, int_errors(e))
        }),
{
    let ghost l0 = *line;
    let _ = line.ws_comments();
    proof {
        lemma_int_errors_concat(seq![], seq![]);
        assert(line.errors_spec() =~= l0.errors_spec() + int_errors(seq![]));
    }
    if line.at(TokenKind::Int) {
        Some(numeric_int(line))
    } else if line.at(TokenKind::Float) {
        Some(numeric_float(line))
    } else {
        None
    }
}

/// Where a value that starts at `p` ends, with the white space and
/// comments after it: after a numeric value when there is one, else after
/// the text up to the next `|`, `*` or `%`.
pub open spec fn value_end(cs: Seq<char>, ts: Seq<Token>, p: int) -> int {
    let (v, pn, _) = numeric_spec(cs, ts, p);
    if v is Some {
        blank_end(ts, pn)
    } else {
        blank_end(ts, first_not_in(ts, p, KindClass::NotValueSep))
    }
}

/// The characters of the text value that starts at `p`.
pub open spec fn text_value_chars(cs: Seq<char>, ts: Seq<Token>, p: int) -> Seq<char> {
    tokens_text(cs, ts.subrange(p, first_not_in(ts, p, KindClass::NotValueSep)))
}

/// `v` is the value that starts at `p` in the tokens `ts` of `cs`, which
/// start at `base`: the numeric value there, or else the trimmed text up to
/// the next separator; its span goes from `p` to the end of the value.
pub open spec fn is_value_at(cs: Seq<char>, ts: Seq<Token>, base: int, p: int, v: Located<Value>) -> bool {
    let (n, _, _) = numeric_spec(cs, ts, p);
    &&& n is Some ==> v.inner_spec()@ == n.unwrap()
    &&& n is None ==> (v.inner_spec() matches Value::Text(t) && is_trim_of(text_value_chars(cs, ts, p), t@))
    &&& v.span_spec().start_spec() == offset_in(ts, base, p)
    &&& v.span_spec().end_spec() == offset_in(ts, base, value_end(cs, ts, p))
}

/// Parses a value up to the next separator: a numeric value, or else the
/// trimmed text; an empty text is an error. The white space and comments
/// after it are parsed too.
pub fn parse_value(line: &mut LineParser) -> (r: Located<Value>)
    requires
        old(line).wf(),
    ensures
        final(line).wf(),
        final(line).same_line(old(line)),
        final(line).warnings_spec() == old(line).warnings_spec(),
        old(line).errors_spec().is_prefix_of(final(line).errors_spec()),
        is_value_at(old(line).input_spec()@, old(line).tokens_spec(), old(line).base_offset_spec(), old(line).pos_spec(), r),
        final(line).pos_spec() == value_end(old(line).input_spec()@, old(line).tokens_spec(), old(line).pos_spec()),
        ({
            let cs = old(line).input_spec()@;
            let ts = old(line).tokens_spec();
            let (n, _, e) = numeric_spec(cs, ts, old(line).pos_spec());
            &&& n is Some ==> final(line).errors_spec() == old(line).errors_spec() + int_errors(e)
            &&& n is None && !is_blank(text_value_chars(cs, ts, old(line).pos_spec())) ==> final(line).errors_spec()
                == old(line).errors_spec()
            &&& n is None && is_blank(text_value_chars(cs, ts, old(line).pos_spec())) ==> {
                &&& final(line).errors_spec() == old(line).errors_spec().push(final(line).errors_spec().last())
                &&& is_part_invalid(final(line).errors_spec().last(), "quantity"@, "value"@, "is empty"@)
            }
        }),
{
    let ghost ts = line.tokens_spec();
    let ghost cs = line.input_spec()@;
    let ghost l0 = *line;
    let ghost p = l0.pos_spec();
    let start = line.current_offset();
    let cp = line.checkpoint();
    let val = match numeric_value(line) {
        Some(v) => v,
        None => {
            line.rewind(cp);
            let offset = line.current_offset();
            let tokens = line.consume_while(KindClass::NotValueSep);
            let ghost j = first_not_in(ts, p, KindClass::NotValueSep);
            proof {
                lemma_first_not_in(ts, p, KindClass::NotValueSep);
                lemma_tokens_ok_subrange(cs, ts, p, j);
                if p < j && p > 0 {
                    assert(ts[p - 1].span.end_spec() == ts[p].span.start_spec());
                }
                assert(line.errors_spec() =~= l0.errors_spec());
            }
            let text = line.text(offset, tokens);
            if text.is_text_empty() {
                let span = text.span();
                line.error(
                    ParserError::ComponentPartInvalid {
                        container: "quantity",
                        what: "value",
                        reason: "is empty",
                        labels: vec![(span, Some("empty value here".to_owned()))],
                        help: None,
                    },
                );
            }
            Value::Text(text.text_trimmed())
        },
    };
    let ghost l1 = *line;
    let _ = line.ws_comments();
    let end = line.current_offset();
    proof {
        lemma_first_not_in(ts, l1.pos_spec(), KindClass::Blank);
    }
    Located::new(val, Span::new(start, end))
}

/// Positions only move forward, and stay within the tokens.
proof fn lemma_blank_end(ts: Seq<Token>, p: int)
    requires
        0 <= p <= ts.len(),
    ensures
        p <= blank_end(ts, p) <= ts.len(),
{
    lemma_first_not_in(ts, p, KindClass::Blank);
}

/// A fraction ends at or after where it starts.
proof fn lemma_frac_pos(cs: Seq<char>, ts: Seq<Token>, p: int)
    requires
        0 <= p <= ts.len(),
    ensures
        p <= frac_spec(cs, ts, p).1 <= ts.len(),
{
    let (a, p1, _) = int_spec(cs, ts, p);
    if a is Some {
        lemma_blank_end(ts, p1);
        let p2 = blank_end(ts, p1);
        if kind_at(ts, p2) == TokenKind::Slash {
            lemma_blank_end(ts, p2 + 1);
        }
    }
}

/// A range ends at or after where it starts.
proof fn lemma_range_pos(cs: Seq<char>, ts: Seq<Token>, p: int)
    requires
        0 <= p <= ts.len(),
    ensures
        p <= range_spec(cs, ts, p).1 <= ts.len(),
{
    let (a, p1, _) = num_spec(cs, ts, p);
    if a is Some {
        lemma_blank_end(ts, p1);
        let p2 = blank_end(ts, p1);
        if kind_at(ts, p2) == TokenKind::Minus {
            lemma_blank_end(ts, p2 + 1);
        }
    }
}

/// A value ends at or after where it starts.
pub proof fn lemma_value_end(cs: Seq<char>, ts: Seq<Token>, p: int)
    requires
        0 <= p <= ts.len(),
    ensures
        p <= value_end(cs, ts, p) <= ts.len(),
{
    lemma_blank_end(ts, p);
    let q = blank_end(ts, p);
    lemma_frac_pos(cs, ts, q);
    lemma_range_pos(cs, ts, q);
    let (_, p1, _) = int_spec(cs, ts, q);
    if p1 <= ts.len() {
        lemma_blank_end(ts, p1);
        lemma_frac_pos(cs, ts, blank_end(ts, p1));
    }
    let (v, pn, _) = numeric_spec(cs, ts, p);
    if v is Some {
        lemma_blank_end(ts, pn);
    } else {
        lemma_first_not_in(ts, p, KindClass::NotValueSep);
        lemma_blank_end(ts, first_not_in(ts, p, KindClass::NotValueSep));
    }
}

/// Where the values separated by `|` from `p` on start.
pub open spec fn value_starts(cs: Seq<char>, ts: Seq<Token>, p: int) -> Seq<int>
    decreases ts.len() - p,
{
    let e = value_end(cs, ts, p);
    if kind_at(ts, e) == TokenKind::Or && p <= e && e < ts.len() {
        seq![p] + value_starts(cs, ts, e + 1)
    } else {
        seq![p]
    }
}

/// Where the values from `p` on end, with the `*` after the last one when
/// there is one.
pub open spec fn values_end(cs: Seq<char>, ts: Seq<Token>, p: int) -> int {
    let e = value_end(cs, ts, value_starts(cs, ts, p).last());
    if kind_at(ts, e) == TokenKind::Star {
        e + 1
    } else {
        e
    }
}

/// `r` holds the values separated by `|` from `p` on: one value, marked to
/// scale when a `*` follows it, or many.
pub open spec fn are_values_at(cs: Seq<char>, ts: Seq<Token>, base: int, p: int, r: QuantityValue) -> bool {
    let starts = value_starts(cs, ts, p);
    let e = value_end(cs, ts, starts.last());
    let star = kind_at(ts, e) == TokenKind::Star;
    &&& starts.len() == 1 ==> (r matches QuantityValue::Single { value, auto_scale } && is_value_at(
        cs,
        ts,
        base,
        starts[0],
        value,
    ) && auto_scale == (if star { Some(ts[e].span) } else { None::<Span> }))
    &&& starts.len() > 1 ==> (r matches QuantityValue::Many(vs) && vs@.len() == starts.len() && (forall|i: int|
        0 <= i < starts.len() ==> is_value_at(cs, ts, base, starts[i], #[trigger] vs@[i])))
    &&& r matches QuantityValue::Many(vs) ==> vs@.len() > 1
}

/// Parses values separated by `|`, and a `*` after the last one, which
/// marks a single value to scale. With more than one value, the mark is an
/// error.
pub fn many_values(line: &mut LineParser) -> (r: QuantityValue)
    requires
        old(line).wf(),
    ensures
        final(line).wf(),
        final(line).same_line(old(line)),
        final(line).warnings_spec() == old(line).warnings_spec(),
        old(line).errors_spec().is_prefix_of(final(line).errors_spec()),
        final(line).pos_spec() == values_end(old(line).input_spec()@, old(line).tokens_spec(), old(line).pos_spec()),
        are_values_at(old(line).input_spec()@, old(line).tokens_spec(), old(line).base_offset_spec(), old(line).pos_spec(), r),
        ({
            let cs = old(line).input_spec()@;
            let ts = old(line).tokens_spec();
            let starts = value_starts(cs, ts, old(line).pos_spec());
            let e = value_end(cs, ts, starts.last());
            starts.len() > 1 && kind_at(ts, e) == TokenKind::Star ==> is_part_invalid(
                final(line).errors_spec().last(),
                "quantity"@,
                "value"@,
                "auto scale is not compatible with multiple values"@,
            )
        }),
{
    let ghost ts = line.tokens_spec();
    let ghost cs = line.input_spec()@;
    let ghost l0 = *line;
    let ghost p = l0.pos_spec();
    let ghost starts = value_starts(cs, ts, p);
    let mut values: Vec<Located<Value>> = Vec::new();
    let mut auto_scale: Option<Span> = None;
    let ghost mut done: Seq<int> = Seq::empty();
    loop
        invariant_except_break
            ts == l0.tokens_spec(),
            cs == l0.input_spec()@,
            p == l0.pos_spec(),
            starts == value_starts(cs, ts, p),
            line.wf(),
            line.same_line(&l0),
            line.warnings_spec() == l0.warnings_spec(),
            l0.errors_spec().is_prefix_of(line.errors_spec()),
            done + value_starts(cs, ts, line.pos_spec()) == starts,
            values@.len() == done.len(),
            forall|i: int| 0 <= i < done.len() ==> is_value_at(cs, ts, l0.base_offset_spec(), done[i], #[trigger] values@[i]),
            auto_scale is None,
        ensures
            ts == l0.tokens_spec(),
            cs == l0.input_spec()@,
            line.wf(),
            line.same_line(&l0),
            line.warnings_spec() == l0.warnings_spec(),
            l0.errors_spec().is_prefix_of(line.errors_spec()),
            done == starts,
            values@.len() == done.len(),
            forall|i: int| 0 <= i < done.len() ==> is_value_at(cs, ts, l0.base_offset_spec(), done[i], #[trigger] values@[i]),
            ({
                let e = value_end(cs, ts, starts.last());
                let star = kind_at(ts, e) == TokenKind::Star;
                &&& line.pos_spec() == if star { e + 1 } else { e }
                &&& auto_scale == if star { Some(ts[e].span) } else { None::<Span> }
            }),
        decreases ts.len() - line.pos_spec(),
    {
        let ghost cur = line.pos_spec();
        let ghost lc = *line;
        proof {
            lemma_value_end(cs, ts, cur);
        }
        let v = parse_value(line);
        proof {
            assert(is_value_at(cs, ts, l0.base_offset_spec(), cur, v));
        }
        values.push(v);
        let ghost e = line.pos_spec();
        proof {
            let old_done = done;
            done = done.push(cur);
            assert(forall|i: int| 0 <= i < old_done.len() ==> #[trigger] values@[i] == values@[i]);
            lemma_prefix_trans(l0.errors_spec(), lc.errors_spec(), line.errors_spec());
        }
        if line.at(TokenKind::Or) {
            let _ = line.bump_any();
            proof {
                assert(done + value_starts(cs, ts, e + 1) =~= starts);
            }
        } else if line.at(TokenKind::Star) {
            let tok = line.bump_any();
            auto_scale = Some(tok.span);
            proof {
                assert(done =~= starts);
            }
            break;
        } else {
            proof {
                assert(done =~= starts);
            }
            break;
        }
    }
    if values.len() == 1 {
        let value = values.pop().unwrap();
        QuantityValue::Single { value, auto_scale }
    } else {
        match auto_scale {
            Some(span) => {
                line.error(
                    ParserError::ComponentPartInvalid {
                        container: "quantity",
                        what: "value",
                        reason: "auto scale is not compatible with multiple values",
                        labels: vec![(span, Some("remove this".to_owned()))],
                        help: None,
                    },
                );
            },
            None => {},
        }
        QuantityValue::Many(values)
    }
}

/// A sequence is a prefix of itself with more after it.
pub proof fn lemma_prefix_concat<T>(a: Seq<T>, b: Seq<T>)
    ensures
        a.is_prefix_of(a + b),
        a.is_prefix_of(a),
{
    assert(a =~= (a + b).subrange(0, a.len() as int));
    assert(a =~= a.subrange(0, a.len() as int));
}

/// A sequence is a prefix of itself with one more element.
pub proof fn lemma_prefix_push<T>(a: Seq<T>, x: T)
    ensures
        a.is_prefix_of(a.push(x)),
{
    assert(a =~= a.push(x).subrange(0, a.len() as int));
}

/// A sequence is a prefix of itself and of itself with one more element.
pub proof fn lemma_prefix_same_or_push<T>(a: Seq<T>, b: Seq<T>)
    requires
        b == a || (b.len() > 0 && b == a.push(b.last())),
    ensures
        a.is_prefix_of(b),
{
    if b == a {
        assert(a =~= b.subrange(0, a.len() as int));
    } else {
        lemma_prefix_push(a, b.last());
    }
}

/// The elements of a prefix are those of the longer sequence.
pub proof fn lemma_prefix_index<T>(a: Seq<T>, b: Seq<T>, i: int)
    requires
        a.is_prefix_of(b),
        0 <= i < a.len(),
    ensures
        b[i] == a[i],
{
    assert(a[i] == b.subrange(0, a.len() as int)[i]);
}

/// A prefix of a prefix is a prefix.
pub proof fn lemma_prefix_trans<T>(a: Seq<T>, b: Seq<T>, c: Seq<T>)
    requires
        a.is_prefix_of(b),
        b.is_prefix_of(c),
    ensures
        a.is_prefix_of(c),
{
    assert forall|i: int| 0 <= i < a.len() implies a[i] == c.subrange(0, a.len() as int)[i] by {
        assert(a[i] == b.subrange(0, a.len() as int)[i]);
        assert(b[i] == c.subrange(0, b.len() as int)[i]);
    }
    assert(a =~= c.subrange(0, a.len() as int));
}

/// A quantity, and the `%` that separated its unit when there was one.
pub struct ParsedQuantity<'a> {
    pub quantity: Located<Quantity<'a>>,
    pub unit_separator: Option<Span>,
}

/// Every token is white space or a block comment.
pub open spec fn all_ws_or_block(ts: Seq<Token>) -> bool {
    forall|k: int| 0 <= k < ts.len() ==> #[trigger] ts[k].kind == TokenKind::Whitespace || ts[k].kind == TokenKind::BlockComment
}

/// Whether every token is white space or a block comment.
pub fn is_ws_or_block(tokens: &[Token]) -> (r: bool)
    ensures
        r == all_ws_or_block(tokens@),
{
    let mut i: usize = 0;
    while i < tokens.len()
        invariant
            0 <= i <= tokens@.len(),
            all_ws_or_block(tokens@.take(i as int)),
        decreases tokens@.len() - i,
    {
        let k = tokens[i].kind;
        if !(k == TokenKind::Whitespace || k == TokenKind::BlockComment) {
            proof {
                assert(!(tokens@[i as int].kind == TokenKind::Whitespace || tokens@[i as int].kind == TokenKind::BlockComment));
            }
            return false;
        }
        proof {
            assert forall|j: int| 0 <= j < i + 1 implies #[trigger] tokens@.take(i + 1)[j].kind == TokenKind::Whitespace
                || tokens@.take(i + 1)[j].kind == TokenKind::BlockComment by {
                if j < i {
                    assert(tokens@.take(i + 1)[j] == tokens@.take(i as int)[j]);
                }
            }
        }
        i = i + 1;
    }
    proof {
        assert(tokens@.take(i as int) =~= tokens@);
    }
    true
}

/// Whether the quantity has the form "number unit": with advanced units
/// enabled and no `|`, `*` or `%`, a numeric value at the start, then white
/// space or comments, then a unit that is the rest.
pub open spec fn unit_form_applies(ext: Extensions, cs: Seq<char>, ts: Seq<Token>) -> bool {
    let (n, pn, _) = numeric_spec(cs, ts, 0);
    &&& ext.has_bit(32)
    &&& first_not_in(ts, 0, KindClass::NotValueSep) == ts.len()
    &&& n is Some
    &&& pn < blank_end(ts, pn) < ts.len()
}

/// Tries the form "number unit".
fn unit_form<'t, 'input>(line: &mut LineParser<'t, 'input>) -> (r: Option<(Located<Value>, Text<'input>)>)
    requires
        old(line).wf(),
        old(line).pos_spec() == 0,
        old(line).tokens_spec().len() > 0,
    ensures
        final(line).wf(),
        final(line).same_line(old(line)),
        final(line).warnings_spec() == old(line).warnings_spec(),
        old(line).errors_spec().is_prefix_of(final(line).errors_spec()),
        ({
            let cs = old(line).input_spec()@;
            let ts = old(line).tokens_spec();
            let (n, pn, _) = numeric_spec(cs, ts, 0);
            let b = blank_end(ts, pn);
            &&& (r is Some <==> n is Some && pn < b < ts.len())
            &&& r matches Some((v, u)) ==> {
                &&& v.inner_spec()@ == n.unwrap()
                &&& v.span_spec().start_spec() == ts[0].span.start_spec()
                &&& v.span_spec().end_spec() == offset_in(ts, old(line).base_offset_spec(), pn)
                &&& text_of(u, cs, ts[b].span.start_spec() as int, ts.subrange(b, ts.len() as int))
                &&& u.chars_spec() == tokens_text(cs, ts.subrange(b, ts.len() as int))
            }
        }),
{
    let ghost ts = line.tokens_spec();
    let ghost cs = line.input_spec()@;
    let ghost l0 = *line;
    let start = line.current_offset();
    let value = numeric_value(line);
    proof {
        lemma_prefix_concat(l0.errors_spec(), line.errors_spec().subrange(l0.errors_spec().len() as int, line.errors_spec().len() as int));
        assert(l0.errors_spec() + line.errors_spec().subrange(l0.errors_spec().len() as int, line.errors_spec().len() as int) =~= line.errors_spec());
    }
    let value = match value {
        Some(v) => v,
        None => {
            return None;
        },
    };
    let end = line.current_offset();
    let ghost pn = line.pos_spec();
    proof {
        lemma_first_not_in(ts, pn, KindClass::Blank);
    }
    let blank = line.ws_comments();
    if blank.len() == 0 {
        return None;
    }
    let ghost b = line.pos_spec();
    let unit = line.consume_rest();
    if unit.len() == 0 {
        return None;
    }
    proof {
        lemma_tokens_ok_subrange(cs, ts, b, ts.len() as int);
    }
    let unit_text = line.text(unit[0].span.start(), unit);
    Some((Located::new(value, Span::new(start, end)), unit_text))
}

/// Tries the form "number unit" when it may apply; on failure nothing is
/// parsed, and errors of the try stay.
fn try_unit_form<'t, 'input>(line: &mut LineParser<'t, 'input>) -> (r: Option<(Located<Value>, Text<'input>)>)
    requires
        old(line).wf(),
        old(line).pos_spec() == 0,
        old(line).tokens_spec().len() > 0,
    ensures
        final(line).wf(),
        final(line).same_line(old(line)),
        final(line).warnings_spec() == old(line).warnings_spec(),
        old(line).errors_spec().is_prefix_of(final(line).errors_spec()),
        ({
            let cs = old(line).input_spec()@;
            let ts = old(line).tokens_spec();
            let (n, pn, _) = numeric_spec(cs, ts, 0);
            let b = blank_end(ts, pn);
            &&& (r is Some <==> unit_form_applies(old(line).extensions_spec(), cs, ts))
            &&& r is None ==> final(line).pos_spec() == 0
            &&& r matches Some((v, u)) ==> {
                &&& v.inner_spec()@ == n.unwrap()
                &&& v.span_spec().start_spec() == ts[0].span.start_spec()
                &&& v.span_spec().end_spec() == offset_in(ts, old(line).base_offset_spec(), pn)
                &&& text_of(u, cs, ts[b].span.start_spec() as int, ts.subrange(b, ts.len() as int))
            }
        }),
{
    if !line.extension(Extensions::advanced_units()) {
        proof {
            assert(line.errors_spec() =~= line.errors_spec().subrange(0, line.errors_spec().len() as int));
        }
        return None;
    }
    let cp = line.checkpoint();
    let seps = line.consume_while(KindClass::NotValueSep);
    let no_seps = seps.len() == line.tokens().len();
    line.rewind(cp);
    if !no_seps {
        proof {
            assert(line.errors_spec() =~= line.errors_spec().subrange(0, line.errors_spec().len() as int));
        }
        return None;
    }
    let ghost l0 = *line;
    let r = unit_form(line);
    match r {
        Some(x) => Some(x),
        None => {
            line.rewind(cp);
            proof {
                assert(l0.errors_spec().is_prefix_of(line.errors_spec()));
            }
            None
        },
    }
}

/// The unit after a `%`, which is the next token: the text of the rest of
/// the tokens; when that is only white space and block comments, no unit
/// and an error.
fn unit_after_sep<'t, 'input>(line: &mut LineParser<'t, 'input>) -> (r: (Option<Text<'input>>, Span))
    requires
        old(line).wf(),
        old(line).peek_spec() == TokenKind::Percent,
    ensures
        final(line).wf(),
        final(line).same_line(old(line)),
        final(line).pos_spec() == old(line).tokens_spec().len(),
        final(line).warnings_spec() == old(line).warnings_spec(),
        old(line).errors_spec().is_prefix_of(final(line).errors_spec()),
        ({
            let cs = old(line).input_spec()@;
            let ts = old(line).tokens_spec();
            let pe = old(line).pos_spec();
            let ut = ts.subrange(pe + 1, ts.len() as int);
            &&& r.1 == ts[pe].span
            &&& all_ws_or_block(ut) ==> {
                &&& r.0 is None
                &&& final(line).errors_spec().len() > old(line).errors_spec().len()
                &&& is_part_invalid(final(line).errors_spec().last(), "quantity"@, "unit"@, "is empty"@)
            }
            &&& !all_ws_or_block(ut) ==> {
                &&& final(line).errors_spec() == old(line).errors_spec()
                &&& (r.0 matches Some(u) && text_of(u, cs, ts[pe].span.end_spec() as int, ut))
            }
        }),
{
    let ghost ts = line.tokens_spec();
    let ghost cs = line.input_spec()@;
    let ghost pe = line.pos_spec();
    let ghost l0 = *line;
    let sep = line.bump_any();
    let unit = line.consume_rest();
    proof {
        lemma_tokens_ok_subrange(cs, ts, pe + 1, ts.len() as int);
        assert(token_ok(cs, ts[pe]));
        if pe + 1 < ts.len() {
            assert(ts[pe].span.end_spec() == ts[pe + 1].span.start_spec());
        }
        lemma_prefix_concat(l0.errors_spec(), seq![]);
    }
    if is_ws_or_block(unit) {
        let span = if unit.len() == 0 {
            Span::pos(sep.span.end())
        } else {
            Span::new(sep.span.start(), unit[unit.len() - 1].span.end())
        };
        line.error(
            ParserError::ComponentPartInvalid {
                container: "quantity",
                what: "unit",
                reason: "is empty",
                labels: vec![(sep.span, Some("remove this".to_owned())), (span, Some("or add unit here".to_owned()))],
                help: None,
            },
        );
        proof {
            lemma_prefix_concat(l0.errors_spec(), seq![line.errors_spec().last()]);
            assert(l0.errors_spec() + seq![line.errors_spec().last()] =~= line.errors_spec());
        }
        (None, sep.span)
    } else {
        let u = line.text(sep.span.end(), unit);
        (Some(u), sep.span)
    }
}

/// `value`, `unit` and `sep` are what the tokens `ts` of a quantity give,
/// parsed as values, then a `%` and a unit, or else as one text value.
pub open spec fn parts_are(cs: Seq<char>, ts: Seq<Token>, value: QuantityValue, unit: Option<Text>, sep: Option<Span>) -> bool {
    let base = ts[0].span.start_spec() as int;
    let pe = values_end(cs, ts, 0);
    &&& value matches QuantityValue::Many(vs) ==> vs@.len() > 1
    &&& unit matches Some(u) ==> u.wf()
    &&& kind_at(ts, pe) == TokenKind::Percent ==> {
        let ut = ts.subrange(pe + 1, ts.len() as int);
        &&& sep == Some(ts[pe].span)
        &&& are_values_at(cs, ts, base, 0, value)
        &&& all_ws_or_block(ut) ==> unit is None
        &&& !all_ws_or_block(ut) ==> (unit matches Some(u) && text_of(u, cs, ts[pe].span.end_spec() as int, ut))
    }
    &&& pe == ts.len() ==> sep is None && unit is None && are_values_at(cs, ts, base, 0, value)
    &&& pe < ts.len() && kind_at(ts, pe) != TokenKind::Percent ==> {
        &&& sep is None
        &&& unit is None
        &&& (value matches QuantityValue::Single { value: v, auto_scale } && auto_scale is None
            && (v.inner_spec() matches Value::Text(t) && is_trim_of(tokens_text(cs, ts), t@))
            && v.span_spec().start_spec() == base)
    }
}

/// The unit of the tokens `ts` of a quantity is empty: a `%` after the
/// values and nothing but white space and block comments after it.
pub open spec fn empty_unit(cs: Seq<char>, ts: Seq<Token>) -> bool {
    let pe = values_end(cs, ts, 0);
    kind_at(ts, pe) == TokenKind::Percent && all_ws_or_block(ts.subrange(pe + 1, ts.len() as int))
}

/// The values of a quantity, its unit and the `%` before the unit.
fn values_and_unit<'t, 'input>(line: &mut LineParser<'t, 'input>) -> (r: (QuantityValue, Option<Text<'input>>, Option<Span>))
    requires
        old(line).wf(),
        old(line).pos_spec() == 0,
        old(line).tokens_spec().len() > 0,
    ensures
        final(line).wf(),
        final(line).same_line(old(line)),
        final(line).pos_spec() == old(line).tokens_spec().len(),
        final(line).warnings_spec() == old(line).warnings_spec(),
        old(line).errors_spec().is_prefix_of(final(line).errors_spec()),
        old(line).base_offset_spec() == old(line).tokens_spec()[0].span.start_spec(),
        parts_are(old(line).input_spec()@, old(line).tokens_spec(), r.0, r.1, r.2),
        empty_unit(old(line).input_spec()@, old(line).tokens_spec()) ==> {
            &&& final(line).errors_spec().len() > 0
            &&& is_part_invalid(final(line).errors_spec().last(), "quantity"@, "unit"@, "is empty"@)
        },
{
    let ghost ts = line.tokens_spec();
    let ghost cs = line.input_spec()@;
    let ghost old_errors = line.errors_spec();
    let value = many_values(line);
    let ghost l1 = *line;
    let ghost pe = line.pos_spec();
    if line.at(TokenKind::Percent) {
        let (unit, sep) = unit_after_sep(line);
        proof {
            lemma_prefix_trans(old_errors, l1.errors_spec(), line.errors_spec());
        }
        (value, unit, Some(sep))
    } else if line.at(TokenKind::Eof) {
        (value, None, None)
    } else {
        let _ = line.consume_rest();
        let all = line.tokens();
        proof {
            assert(ts.subrange(0, ts.len() as int) =~= ts);
        }
        let text = line.text(all[0].span.start(), all);
        let text_val = Value::Text(text.text_trimmed());
        let span = text.span();
        (QuantityValue::Single { value: Located::new(text_val, span), auto_scale: None }, None, None)
    }
}

/// `r` is the quantity that the tokens `ts` of `cs` give with the
/// extensions `ext`, the errors going from `before` to `after`.
pub open spec fn quantity_parsed(
    ext: Extensions,
    cs: Seq<char>,
    ts: Seq<Token>,
    r: ParsedQuantity,
    before: Seq<ParserError>,
    after: Seq<ParserError>,
) -> bool {
    let base = ts[0].span.start_spec() as int;
    let q = r.quantity.inner_spec();
    let (n, pn, _) = numeric_spec(cs, ts, 0);
    &&& r.quantity.span_spec().start_spec() == ts[0].span.start_spec()
    &&& r.quantity.span_spec().end_spec() == ts.last().span.end_spec()
    &&& before.is_prefix_of(after)
    &&& q.value matches QuantityValue::Many(vs) ==> vs@.len() > 1
    &&& q.unit matches Some(u) ==> u.wf()
    &&& unit_form_applies(ext, cs, ts) ==> {
        let b = blank_end(ts, pn);
        &&& after == before
        &&& r.unit_separator is None
        &&& (q.value matches QuantityValue::Single { value, auto_scale } && auto_scale is None
            && value.inner_spec()@ == n.unwrap() && value.span_spec().start_spec() == base
            && value.span_spec().end_spec() == offset_in(ts, base, pn))
        &&& (q.unit matches Some(u) && text_of(u, cs, ts[b].span.start_spec() as int, ts.subrange(b, ts.len() as int)))
    }
    &&& !unit_form_applies(ext, cs, ts) ==> parts_are(cs, ts, q.value, q.unit, r.unit_separator)
    &&& !unit_form_applies(ext, cs, ts) && empty_unit(cs, ts) ==> {
        &&& after.len() > 0
        &&& is_part_invalid(after.last(), "quantity"@, "unit"@, "is empty"@)
    }
}

/// Parses the tokens of a quantity, between the braces of a component.
/// With advanced units, "number unit" gives the unit after the space, and
/// the errors found on the way are dropped. Otherwise values separated by
/// `|`, then `%` and a unit; an empty unit is an error; anything else after
/// the values makes the whole quantity one text value.
#[verifier::rlimit(80)]
#[verifier::spinoff_prover]
pub fn parse_quantity<'input>(
    tokens: &[Token],
    input: &'input str,
    extensions: Extensions,
    context: &mut Context<ParserError, ParserWarning>,
) -> (r: ParsedQuantity<'input>)
    requires
        tokens@.len() > 0,
        tokens_ok(input@, tokens@),
        byte_len(input@) <= usize::MAX,
    ensures
        final(context).warnings@ == old(context).warnings@,
        quantity_parsed(extensions, input@, tokens@, r, old(context).errors@, final(context).errors@),
{
    let mut line = LineParser::new(tokens[0].span.start(), tokens, input, extensions);
    match try_unit_form(&mut line) {
        Some((value, unit)) => {
            proof {
                assert(unit.wf());
            }
            return ParsedQuantity {
                quantity: Located::new(
                    Quantity { value: QuantityValue::Single { value, auto_scale: None }, unit: Some(unit) },
                    tokens_span(tokens),
                ),
                unit_separator: None,
            };
        },
        None => {},
    }
    let ghost l1 = line;
    let (value, unit, unit_separator) = values_and_unit(&mut line);
    let ghost l2 = line;
    let mut ctx = line.finish();
    let ghost c0 = *context;
    context.append(&mut ctx);
    proof {
        let le = l2.errors_spec();
        lemma_prefix_concat(c0.errors@, le);
        if le.len() > 0 {
            assert(context.errors@.last() == le.last());
        }
    }
    ParsedQuantity { quantity: Located::new(Quantity { value, unit }, tokens_span(tokens)), unit_separator }
}

} // verus!
