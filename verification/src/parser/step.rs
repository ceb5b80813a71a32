//! Step lines: text with ingredients, cookware and timers in it.
use vstd::prelude::*;

use crate::ast::{
    is_blank, Component, Cookware, Ingredient, Item, Modifiers, NumberView, Quantity, QuantityValue, Text, Timer, ValueView,
};
use vstd::slice::slice_subrange;
use crate::extensions::Extensions;
use crate::context::Recover;
use crate::located::Located;
use crate::parser::parser::{
    first_in, first_not_in, lemma_first_in, lemma_first_not_in, lemma_tokens_ok_subrange, offset_in, text_of, tokens_span, tokens_text,
    KindClass, LineParser,
};
use crate::parser::quantity::{
    lemma_prefix_concat, lemma_prefix_index, lemma_prefix_push, lemma_prefix_same_or_push, lemma_prefix_trans,
};
use crate::parser::token_stream::{token_ok, tokens_ok};
use crate::parser::quantity::{all_ws_or_block, is_ws_or_block, kind_at};
use crate::parser::token_stream::{Token, TokenKind};
use crate::parser::{
    is_part_invalid, is_part_missing_at, is_part_not_allowed_at, ParserError, ParserWarning,
};
use crate::span::Span;

verus! {

/// The name of a component, and the braces and quantity after it.
pub struct Body<'t> {
    pub name: &'t [Token],
    pub close: Option<Span>,
    pub quantity: Option<&'t [Token]>,
}

/// Where a long body `name{quantity}` that starts at `p` has its `{` and
/// its `}`: the name runs up to the first `{`, `@`, `#` or `~`, which must
/// be a `{`, and a `}` must follow.
pub open spec fn long_body(ts: Seq<Token>, p: int) -> Option<(int, int)> {
    let j = first_in(ts, p, KindClass::NameEnd);
    if j < ts.len() && ts[j].kind == TokenKind::OpenBrace {
        let k = first_in(ts, j + 1, KindClass::Is(TokenKind::CloseBrace));
        if k < ts.len() {
            Some((j, k))
        } else {
            None
        }
    } else {
        None
    }
}

/// Where the words and numbers of a short body from `p` end.
pub open spec fn short_end(ts: Seq<Token>, p: int) -> int {
    first_not_in(ts, p, KindClass::Atom)
}

/// Where a component body that starts at `p` ends: after the `}` of a long
/// body, or else after the words and numbers of a short one, when there is
/// at least one.
pub open spec fn body_end(ts: Seq<Token>, p: int) -> Option<int> {
    match long_body(ts, p) {
        Some((j, k)) => Some(k + 1),
        None => if short_end(ts, p) > p {
            Some(short_end(ts, p))
        } else {
            None
        },
    }
}

/// The tokens of the name of the body at `p`.
pub open spec fn body_name(ts: Seq<Token>, p: int) -> Seq<Token> {
    match long_body(ts, p) {
        Some((j, k)) => ts.subrange(p, j),
        None => ts.subrange(p, short_end(ts, p)),
    }
}

/// `b` is the body at `p`: its name, its `{` when it is long, and the
/// tokens between the braces when they are not all white space and block
/// comments.
pub open spec fn body_is(ts: Seq<Token>, p: int, b: Body) -> bool {
    &&& b.name@ == body_name(ts, p)
    &&& match long_body(ts, p) {
        Some((j, k)) => {
            &&& b.close == Some(ts[j].span)
            &&& all_ws_or_block(ts.subrange(j + 1, k)) ==> b.quantity is None
            &&& !all_ws_or_block(ts.subrange(j + 1, k)) ==> (b.quantity matches Some(q) && q@ == ts.subrange(j + 1, k))
        },
        None => b.close is None && b.quantity is None,
    }
}

/// Parses the body of a component: `name{quantity}`, or else a short name
/// of words and numbers. Parses nothing when there is neither.
pub fn comp_body<'t, 'input>(line: &mut LineParser<'t, 'input>) -> (r: Option<Body<'t>>)
    requires
        old(line).wf(),
    ensures
        final(line).wf(),
        ({
            let ts = old(line).tokens_spec();
            let p = old(line).pos_spec();
            match body_end(ts, p) {
                None => r is None && final(line).moved_to(old(line), p),
                Some(e) => (r matches Some(b) && body_is(ts, p, b)) && final(line).moved_to(old(line), e),
            }
        }),
{
    let ghost ts = line.tokens_spec();
    let ghost p = line.pos_spec();
    let cp = line.checkpoint();
    proof {
        lemma_first_in(ts, p, KindClass::NameEnd);
        let j = first_in(ts, p, KindClass::NameEnd);
        if j < ts.len() {
            lemma_first_in(ts, j + 1, KindClass::Is(TokenKind::CloseBrace));
        }
        lemma_first_not_in(ts, p, KindClass::Atom);
    }
    if let Ok(name) = line.until(KindClass::NameEnd) {
        if let Ok(open) = line.consume(TokenKind::OpenBrace) {
            if let Ok(quantity) = line.until(KindClass::Is(TokenKind::CloseBrace)) {
                let _ = line.bump(TokenKind::CloseBrace);
                if is_ws_or_block(quantity) {
                    return Some(Body { name, close: Some(open.span), quantity: None });
                } else {
                    return Some(Body { name, close: Some(open.span), quantity: Some(quantity) });
                }
            }
        }
    }
    line.rewind(cp);
    let tokens = line.consume_while(KindClass::Atom);
    if tokens.len() == 0 {
        return None;
    }
    Some(Body { name: tokens, close: None, quantity: None })
}

/// Parses the modifiers of an ingredient: `@`, `&`, `?`, `+` and `-`.
pub fn modifiers<'t, 'input>(line: &mut LineParser<'t, 'input>) -> (r: &'t [Token])
    requires
        old(line).wf(),
    ensures
        final(line).wf(),
        ({
            let j = first_not_in(old(line).tokens_spec(), old(line).pos_spec(), KindClass::Modifier);
            &&& r@ == old(line).tokens_spec().subrange(old(line).pos_spec(), j)
            &&& final(line).moved_to(old(line), j)
        }),
{
    line.consume_while(KindClass::Modifier)
}

/// What an ingredient is called in messages.
pub const INGREDIENT: &'static str = "ingredient";

/// What cookware is called in messages.
pub const COOKWARE: &'static str = "cookware";

/// What a timer is called in messages.
pub const TIMER: &'static str = "timer";

/// Modifiers are for ingredients only: when there are some, an error.
pub fn check_modifiers(line: &mut LineParser, modifiers_tokens: &[Token], container: &'static str)
    ensures
        final(line).same_line(old(line)),
        final(line).pos_spec() == old(line).pos_spec(),
        final(line).warnings_spec() == old(line).warnings_spec(),
        modifiers_tokens@.len() == 0 ==> final(line).errors_spec() == old(line).errors_spec(),
        modifiers_tokens@.len() > 0 ==> {
            let ts = modifiers_tokens@;
            &&& final(line).errors_spec() == old(line).errors_spec().push(final(line).errors_spec().last())
            &&& final(line).errors_spec().last() matches ParserError::ComponentPartNotAllowed { container: c, what, to_remove, .. }
            &&& c == container && what@ == "modifiers"@
            &&& to_remove.start_spec() == ts[0].span.start_spec() && to_remove.end_spec() == ts.last().span.end_spec()
        },
{
    if modifiers_tokens.len() > 0 {
        line.error(
            ParserError::ComponentPartNotAllowed {
                container,
                what: "modifiers",
                to_remove: tokens_span(modifiers_tokens),
                help: Some("Modifiers are only available in ingredients"),
            },
        );
    }
}

/// The index of the first `|` of `ts`, or its length.
pub open spec fn alias_sep(ts: Seq<Token>) -> int {
    first_in(ts, 0, KindClass::Is(TokenKind::Or))
}

/// The index of the first `|` of `tokens`, if any.
pub fn find_alias_sep(tokens: &[Token]) -> (r: Option<usize>)
    ensures
        alias_sep(tokens@) < tokens@.len() ==> r == Some(alias_sep(tokens@) as usize),
        alias_sep(tokens@) == tokens@.len() ==> r is None,
{
    proof {
        lemma_first_in(tokens@, 0, KindClass::Is(TokenKind::Or));
    }
    let mut i: usize = 0;
    while i < tokens.len()
        invariant
            0 <= i <= tokens@.len(),
            first_in(tokens@, 0, KindClass::Is(TokenKind::Or)) == first_in(tokens@, i as int, KindClass::Is(TokenKind::Or)),
        decreases tokens@.len() - i,
    {
        if tokens[i].kind == TokenKind::Or {
            return Some(i);
        }
        i = i + 1;
    }
    None
}

/// Aliases are for ingredients only: when the name has a `|`, an error
/// about the part from it to the end of the name.
pub fn check_alias(line: &mut LineParser, name_tokens: &[Token], container: &'static str)
    ensures
        final(line).same_line(old(line)),
        final(line).pos_spec() == old(line).pos_spec(),
        final(line).warnings_spec() == old(line).warnings_spec(),
        0 <= alias_sep(name_tokens@) <= name_tokens@.len(),
        ({
            let ts = name_tokens@;
            let k = alias_sep(ts);
            &&& k == ts.len() ==> final(line).errors_spec() == old(line).errors_spec()
            &&& k < ts.len() ==> {
                &&& final(line).errors_spec() == old(line).errors_spec().push(final(line).errors_spec().last())
                &&& final(line).errors_spec().last() matches ParserError::ComponentPartNotAllowed { container: c, what, to_remove, .. }
                &&& c == container && what@ == "alias"@
                &&& to_remove.start_spec() == ts[k].span.start_spec() && to_remove.end_spec() == ts.last().span.end_spec()
            }
        }),
{
    proof {
        lemma_first_in(name_tokens@, 0, KindClass::Is(TokenKind::Or));
    }
    if let Some(sep) = find_alias_sep(name_tokens) {
        let to_remove = Span::new(name_tokens[sep].span.start(), name_tokens[name_tokens.len() - 1].span.end());
        line.error(
            ParserError::ComponentPartNotAllowed {
                container,
                what: "alias",
                to_remove,
                help: Some("Aliases are only available in ingredients"),
            },
        );
    }
}

/// Where a note `( ... )` that starts at `p` has its `)`, when it is one.
pub open spec fn note_at(ts: Seq<Token>, p: int) -> Option<int> {
    if kind_at(ts, p) == TokenKind::OpenParen {
        let k = first_in(ts, p + 1, KindClass::Is(TokenKind::CloseParen));
        if k < ts.len() {
            Some(k)
        } else {
            None
        }
    } else {
        None
    }
}

/// Notes are for ingredients only: with notes enabled, a note after the
/// component is warned about, and left in the line.
pub fn check_note(line: &mut LineParser, container: &'static str)
    requires
        old(line).wf(),
    ensures
        final(line).wf(),
        final(line).same_line(old(line)),
        final(line).pos_spec() == old(line).pos_spec(),
        final(line).errors_spec() == old(line).errors_spec(),
        ({
            let ts = old(line).tokens_spec();
            let p = old(line).pos_spec();
            &&& old(line).extensions_spec().has_bit(4) && note_at(ts, p) is Some ==> {
                let k = note_at(ts, p).unwrap();
                &&& final(line).warnings_spec() == old(line).warnings_spec().push(final(line).warnings_spec().last())
                &&& final(line).warnings_spec().last() matches ParserWarning::ComponentPartIgnored { container: c, what, ignored, .. }
                &&& c == container && what@ == "note"@
                &&& ignored.start_spec() == ts[p].span.start_spec() && ignored.end_spec() == ts[k].span.end_spec()
            }
            &&& !(old(line).extensions_spec().has_bit(4) && note_at(ts, p) is Some) ==> final(line).warnings_spec()
                == old(line).warnings_spec()
        }),
{
    if !line.extension(crate::extensions::Extensions::ingredient_note()) {
        return;
    }
    let ghost ts = line.tokens_spec();
    let ghost p = line.pos_spec();
    proof {
        if p < ts.len() {
            lemma_first_in(ts, p + 1, KindClass::Is(TokenKind::CloseParen));
        }
    }
    let cp = line.checkpoint();
    if let Ok(open) = line.consume(TokenKind::OpenParen) {
        if let Ok(_) = line.until(KindClass::Is(TokenKind::CloseParen)) {
            let close = line.bump(TokenKind::CloseParen);
            line.warn(
                ParserWarning::ComponentPartIgnored {
                    container,
                    what: "note",
                    ignored: Span::new(open.span.start(), close.span.end()),
                    help: Some("Notes are only available in ingredients"),
                },
            );
        }
    }
    line.rewind(cp);
}

/// The tokens between the braces of the body at `p`, when they are not all
/// white space and block comments.
pub open spec fn body_quantity(ts: Seq<Token>, p: int) -> Option<Seq<Token>> {
    match long_body(ts, p) {
        Some((j, k)) => if all_ws_or_block(ts.subrange(j + 1, k)) {
            None
        } else {
            Some(ts.subrange(j + 1, k))
        },
        None => None,
    }
}

/// The parts of a body lie in the tokens, in order.
pub proof fn lemma_body_bounds(cs: Seq<char>, ts: Seq<Token>, p: int)
    requires
        tokens_ok(cs, ts),
        0 <= p <= ts.len(),
    ensures
        tokens_ok(cs, body_name(ts, p)),
        long_body(ts, p) matches Some((j, k)) ==> p <= j < k < ts.len() && tokens_ok(cs, ts.subrange(j + 1, k)),
        p <= short_end(ts, p) <= ts.len(),
        body_quantity(ts, p) matches Some(q) ==> q.len() > 0 && tokens_ok(cs, q),
        body_end(ts, p) matches Some(e) ==> p < e <= ts.len(),
{
    lemma_first_in(ts, p, KindClass::NameEnd);
    let j = first_in(ts, p, KindClass::NameEnd);
    if j < ts.len() {
        lemma_first_in(ts, j + 1, KindClass::Is(TokenKind::CloseBrace));
        let k = first_in(ts, j + 1, KindClass::Is(TokenKind::CloseBrace));
        if k < ts.len() {
            lemma_tokens_ok_subrange(cs, ts, j + 1, k);
            lemma_tokens_ok_subrange(cs, ts, p, j);
        }
    }
    lemma_first_not_in(ts, p, KindClass::Atom);
    lemma_tokens_ok_subrange(cs, ts, p, short_end(ts, p));
}

/// The quantity of cookware, which may have no unit and no scaling mark.
fn cookware_quantity<'input>(line: &mut LineParser<'_, 'input>, tokens: Option<&[Token]>) -> (r: Option<Located<QuantityValue>>)
    requires
        old(line).wf(),
        tokens matches Some(t) ==> t@.len() > 0 && tokens_ok(old(line).input_spec()@, t@),
    ensures
        final(line).wf(),
        final(line).same_line(old(line)),
        final(line).pos_spec() == old(line).pos_spec(),
        final(line).warnings_spec() == old(line).warnings_spec(),
        old(line).errors_spec().is_prefix_of(final(line).errors_spec()),
        r is Some <==> tokens is Some,
{
    match tokens {
        Some(tokens) => {
            let ghost l0 = *line;
            let q = line.quantity(tokens);
            let ghost l1 = *line;
            let (inner, qspan) = q.quantity.take_pair();
            match &inner.unit {
                Some(unit) => {
                    let uspan = unit.span();
                    let span = match q.unit_separator {
                        Some(sep) => Span::new(sep.start(), uspan.end()),
                        None => uspan,
                    };
                    line.error(
                        ParserError::ComponentPartNotAllowed {
                            container: COOKWARE,
                            what: "unit in quantity",
                            to_remove: span,
                            help: Some("Cookware quantity can't have an unit."),
                        },
                    );
                    proof {
                        lemma_prefix_push(l1.errors_spec(), line.errors_spec().last());
                        lemma_prefix_trans(l0.errors_spec(), l1.errors_spec(), line.errors_spec());
                    }
                },
                None => {},
            }
            let ghost l2 = *line;
            match &inner.value {
                QuantityValue::Single { auto_scale: Some(a), .. } => {
                    line.error(
                        ParserError::ComponentPartNotAllowed {
                            container: COOKWARE,
                            what: "auto scale marker",
                            to_remove: *a,
                            help: Some("Cookware quantity can't be auto scaled."),
                        },
                    );
                    proof {
                        lemma_prefix_push(l2.errors_spec(), line.errors_spec().last());
                        lemma_prefix_trans(l0.errors_spec(), l2.errors_spec(), line.errors_spec());
                    }
                },
                _ => {},
            }
            Some(Located::new(inner.value, qspan))
        },
        None => {
            proof {
                lemma_prefix_concat(line.errors_spec(), seq![]);
            }
            None
        },
    }
}

/// Parses a cookware component: `#`, a body and the checks that cookware
/// has no modifiers, alias, note, unit or scaling mark.
pub fn cookware<'input>(line: &mut LineParser<'_, 'input>) -> (r: Option<Cookware<'input>>)
    requires
        old(line).wf(),
    ensures
        final(line).wf(),
        final(line).same_line(old(line)),
        old(line).errors_spec().is_prefix_of(final(line).errors_spec()),
        old(line).warnings_spec().is_prefix_of(final(line).warnings_spec()),
        old(line).peek_spec() != TokenKind::Hash ==> r is None && final(line).moved_to(old(line), old(line).pos_spec()),
        old(line).peek_spec() == TokenKind::Hash ==> ({
            let ts = old(line).tokens_spec();
            let cs = old(line).input_spec()@;
            let p = old(line).pos_spec();
            let m = first_not_in(ts, p + 1, KindClass::Modifier);
            &&& body_end(ts, m) is None ==> r is None
            &&& body_end(ts, m) matches Some(e) ==> (r matches Some(c) && {
                &&& final(line).pos_spec() == e
                &&& text_of(c.name, cs, old(line).offset_at(m), body_name(ts, m))
                &&& (c.quantity is Some <==> body_quantity(ts, m) is Some)
                &&& m > p + 1 ==> is_part_not_allowed_at(final(line).errors_spec()[old(line).errors_spec().len() as int], "cookware"@, "modifiers"@)
                &&& is_blank(c.name.chars_spec()) ==> exists|i: int|
                    old(line).errors_spec().len() <= i < final(line).errors_spec().len() && is_part_invalid(
                        #[trigger] final(line).errors_spec()[i],
                        "cookware"@,
                        "name"@,
                        "is empty"@,
                    )
            })
        }),
{
    let ghost ts = line.tokens_spec();
    let ghost cs = line.input_spec()@;
    let ghost l0 = *line;
    let ghost p = l0.pos_spec();
    if line.consume(TokenKind::Hash).is_err() {
        return None;
    }
    let modifiers_tokens = modifiers(line);
    let ghost m = line.pos_spec();
    proof {
        lemma_first_not_in(ts, p + 1, KindClass::Modifier);
        lemma_body_bounds(cs, ts, m);
        lemma_prefix_concat(l0.errors_spec(), seq![]);
        lemma_prefix_concat(l0.warnings_spec(), seq![]);
    }
    let name_offset = line.current_offset();
    let body = match comp_body(line) {
        Some(b) => b,
        None => {
            return None;
        },
    };
    let ghost l1 = *line;
    check_modifiers(line, modifiers_tokens, COOKWARE);
    let ghost l2 = *line;
    proof {
        lemma_prefix_same_or_push(l1.errors_spec(), l2.errors_spec());
    }
    check_alias(line, body.name, COOKWARE);
    let ghost l25 = *line;
    proof {
        lemma_prefix_same_or_push(l2.errors_spec(), l25.errors_spec());
    }
    check_note(line, COOKWARE);
    let ghost l3 = *line;
    proof {
        assert(l3.errors_spec() == l25.errors_spec());
        lemma_prefix_same_or_push(l2.warnings_spec(), l3.warnings_spec());
        if body.name@.len() > 0 {
            assert(body.name@[0] == ts[m]);
            assert(ts[m - 1].span.end_spec() == ts[m].span.start_spec());
        }
    }
    let name = line.text(name_offset, body.name);
    if name.is_text_empty() {
        let span = name.span();
        line.error(
            ParserError::ComponentPartInvalid {
                container: COOKWARE,
                what: "name",
                reason: "is empty",
                labels: vec![(span, Some("add a name here".to_owned()))],
                help: None,
            },
        );
    }
    let ghost l4 = *line;
    proof {
        lemma_prefix_same_or_push(l3.errors_spec(), l4.errors_spec());
        lemma_prefix_trans(l2.errors_spec(), l3.errors_spec(), l4.errors_spec());
    }
    let quantity = cookware_quantity(line, body.quantity);
    proof {
        if is_blank(name.chars_spec()) {
            let i = l3.errors_spec().len() as int;
            lemma_prefix_index(l4.errors_spec(), line.errors_spec(), i);
            assert(is_part_invalid(line.errors_spec()[i], "cookware"@, "name"@, "is empty"@));
        }
        lemma_prefix_trans(l2.errors_spec(), l4.errors_spec(), line.errors_spec());
        lemma_prefix_trans(l0.errors_spec(), l2.errors_spec(), line.errors_spec());
        lemma_prefix_trans(l0.warnings_spec(), l3.warnings_spec(), line.warnings_spec());
        if m > p + 1 {
            lemma_prefix_index(l2.errors_spec(), line.errors_spec(), l0.errors_spec().len() as int);
        }
    }
    Some(Cookware { name, quantity })
}

/// The quantity of a timer, which needs one, with a unit and no scaling
/// mark. Without one, an error and the quantity 1.
fn timer_quantity<'input>(
    line: &mut LineParser<'_, 'input>,
    tokens: Option<&[Token]>,
    close: Option<Span>,
    name_end: usize,
) -> (r: Located<Quantity<'input>>)
    requires
        old(line).wf(),
        tokens matches Some(t) ==> t@.len() > 0 && tokens_ok(old(line).input_spec()@, t@),
    ensures
        final(line).wf(),
        final(line).same_line(old(line)),
        final(line).pos_spec() == old(line).pos_spec(),
        final(line).warnings_spec() == old(line).warnings_spec(),
        old(line).errors_spec().is_prefix_of(final(line).errors_spec()),
        tokens is None ==> {
            let at = match close {
                Some(c) => c.end_spec(),
                None => name_end,
            };
            &&& final(line).errors_spec() == old(line).errors_spec().push(final(line).errors_spec().last())
            &&& final(line).errors_spec().last() matches ParserError::ComponentPartMissing { container, what, expected_pos }
            &&& container@ == "timer"@ && what@ == "quantity"@
            &&& expected_pos.start_spec() == at && expected_pos.end_spec() == at
            &&& r.inner_spec().unit is None
            &&& r.inner_spec().value matches QuantityValue::Single { value, auto_scale } && auto_scale is None
                && value.inner_spec()@ == ValueView::Number(NumberView::Int(1))
        },
        tokens matches Some(t) ==> r.span_spec().start_spec() == t@[0].span.start_spec()
            && r.span_spec().end_spec() == t@.last().span.end_spec(),
        tokens is Some && r.inner_spec().unit is None ==> is_part_missing_at(
            final(line).errors_spec().last(),
            "timer"@,
            "quantity unit"@,
        ),
{
    match tokens {
        Some(tokens) => {
            let ghost l0 = *line;
            let q = line.quantity(tokens);
            let ghost l1 = *line;
            let unit_sep = q.unit_separator;
            let (inner, qspan) = q.quantity.take_pair();
            match &inner.value {
                QuantityValue::Single { auto_scale: Some(a), .. } => {
                    line.error(
                        ParserError::ComponentPartNotAllowed {
                            container: TIMER,
                            what: "auto scale marker",
                            to_remove: *a,
                            help: Some("Timer quantity can't be auto scaled."),
                        },
                    );
                },
                _ => {},
            }
            let ghost l2 = *line;
            proof {
                lemma_prefix_same_or_push(l1.errors_spec(), l2.errors_spec());
            }
            if inner.unit.is_none() {
                let end = inner.value.span().end();
                line.error(
                    ParserError::ComponentPartMissing {
                        container: TIMER,
                        what: "quantity unit",
                        expected_pos: Span::pos(end),
                    },
                );
            }
            proof {
                lemma_prefix_same_or_push(l2.errors_spec(), line.errors_spec());
                lemma_prefix_trans(l1.errors_spec(), l2.errors_spec(), line.errors_spec());
                lemma_prefix_trans(l0.errors_spec(), l1.errors_spec(), line.errors_spec());
            }
            Located::new(inner, qspan)
        },
        None => {
            let at = match close {
                Some(c) => c.end(),
                None => name_end,
            };
            line.error(
                ParserError::ComponentPartMissing { container: TIMER, what: "quantity", expected_pos: Span::pos(at) },
            );
            proof {
                lemma_prefix_push(old(line).errors_spec(), line.errors_spec().last());
            }
            let q = Quantity::recover();
            Located::new(q, Span::new(0, 0))
        },
    }
}

/// Parses a timer component: `~`, a body with a quantity that has a unit.
/// Modifiers, an alias or a note are errors, worded as for cookware.
pub fn timer<'input>(line: &mut LineParser<'_, 'input>) -> (r: Option<Timer<'input>>)
    requires
        old(line).wf(),
    ensures
        final(line).wf(),
        final(line).same_line(old(line)),
        old(line).errors_spec().is_prefix_of(final(line).errors_spec()),
        old(line).warnings_spec().is_prefix_of(final(line).warnings_spec()),
        old(line).peek_spec() != TokenKind::Tilde ==> r is None && final(line).moved_to(old(line), old(line).pos_spec()),
        old(line).peek_spec() == TokenKind::Tilde ==> ({
            let ts = old(line).tokens_spec();
            let cs = old(line).input_spec()@;
            let p = old(line).pos_spec();
            let m = first_not_in(ts, p + 1, KindClass::Modifier);
            let name_chars = tokens_text(cs, body_name(ts, m));
            &&& body_end(ts, m) is None ==> r is None
            &&& body_end(ts, m) matches Some(e) ==> (r matches Some(t) && {
                &&& final(line).pos_spec() == e
                &&& (t.name is None <==> is_blank(name_chars))
                &&& t.name matches Some(n) ==> text_of(n, cs, old(line).offset_at(m), body_name(ts, m))
                &&& body_quantity(ts, m) is None ==> is_part_missing_at(final(line).errors_spec().last(), "timer"@, "quantity"@)
                &&& body_quantity(ts, m) matches Some(q) ==> t.quantity.span_spec().start_spec() == q[0].span.start_spec()
                    && t.quantity.span_spec().end_spec() == q.last().span.end_spec()
                &&& body_quantity(ts, m) is Some && t.quantity.inner_spec().unit is None ==> is_part_missing_at(
                    final(line).errors_spec().last(),
                    "timer"@,
                    "quantity unit"@,
                )
                &&& m > p + 1 ==> is_part_not_allowed_at(final(line).errors_spec()[old(line).errors_spec().len() as int], "cookware"@, "modifiers"@)
            })
        }),
{
    let ghost ts = line.tokens_spec();
    let ghost cs = line.input_spec()@;
    let ghost l0 = *line;
    let ghost p = l0.pos_spec();
    if line.consume(TokenKind::Tilde).is_err() {
        return None;
    }
    let modifiers_tokens = modifiers(line);
    let ghost m = line.pos_spec();
    proof {
        lemma_first_not_in(ts, p + 1, KindClass::Modifier);
        lemma_body_bounds(cs, ts, m);
    }
    let name_offset = line.current_offset();
    let body = match comp_body(line) {
        Some(b) => b,
        None => {
            return None;
        },
    };
    let ghost l1 = *line;
    check_modifiers(line, modifiers_tokens, COOKWARE);
    let ghost l2 = *line;
    check_alias(line, body.name, COOKWARE);
    let ghost l25 = *line;
    check_note(line, COOKWARE);
    let ghost l3 = *line;
    proof {
        lemma_prefix_same_or_push(l1.errors_spec(), l2.errors_spec());
        lemma_prefix_same_or_push(l2.errors_spec(), l25.errors_spec());
        lemma_prefix_same_or_push(l2.warnings_spec(), l3.warnings_spec());
        if body.name@.len() > 0 {
            assert(body.name@[0] == ts[m]);
            assert(ts[m - 1].span.end_spec() == ts[m].span.start_spec());
        }
    }
    let name = line.text(name_offset, body.name);
    let name_end = name.span().end();
    let quantity = timer_quantity(line, body.quantity, body.close, name_end);
    proof {
        lemma_prefix_trans(l2.errors_spec(), l3.errors_spec(), line.errors_spec());
        lemma_prefix_trans(l0.errors_spec(), l2.errors_spec(), line.errors_spec());
        lemma_prefix_trans(l0.warnings_spec(), l3.warnings_spec(), line.warnings_spec());
        if m > p + 1 {
            lemma_prefix_index(l2.errors_spec(), line.errors_spec(), l0.errors_spec().len() as int);
        }
    }
    let name = if name.is_text_empty() {
        None
    } else {
        Some(name)
    };
    Some(Timer { name, quantity })
}

/// The flag bit that a modifier token sets.
pub open spec fn modifier_bit(k: TokenKind) -> u32 {
    if k == TokenKind::At {
        1
    } else if k == TokenKind::And {
        2
    } else if k == TokenKind::Minus {
        4
    } else if k == TokenKind::Question {
        8
    } else {
        16
    }
}

/// The flags that the modifier tokens `ts` set, or `None` at the first one
/// that repeats.
pub open spec fn modifiers_fold(ts: Seq<Token>) -> Option<u32>
    decreases ts.len(),
{
    if ts.len() == 0 {
        Some(0)
    } else {
        match modifiers_fold(ts.drop_last()) {
            None => None,
            Some(acc) => {
                let b = modifier_bit(ts.last().kind);
                if acc & b == b {
                    None
                } else {
                    Some(acc | b)
                }
            },
        }
    }
}

/// The flags that the modifier tokens `ts` give: none after a repeated one,
/// and none when the reference flag comes with the new, hidden or optional
/// flag.
pub open spec fn modifiers_value(ts: Seq<Token>) -> u32 {
    match modifiers_fold(ts) {
        None => 0,
        Some(m) => if m & 2 == 2 && m & 28 != 0 {
            0
        } else {
            m
        },
    }
}

/// The flag of the modifier token kind `k`.
fn modifier_of(k: TokenKind) -> (m: Modifiers)
    ensures
        m.bits_spec() == modifier_bit(k),
{
    if k == TokenKind::At {
        Modifiers::recipe()
    } else if k == TokenKind::And {
        Modifiers::reference()
    } else if k == TokenKind::Minus {
        Modifiers::hidden()
    } else if k == TokenKind::Question {
        Modifiers::optional()
    } else {
        Modifiers::forced_new()
    }
}

/// Reads the modifier tokens of an ingredient, found at `pos`. They need
/// the modifiers extension; a repeated one and the reference flag with the
/// new, hidden or optional flag are errors, and give no flags.
fn parse_modifiers(line: &mut LineParser, pos: usize, tokens: &[Token]) -> (r: Located<Modifiers>)
    requires
        old(line).wf(),
        tokens@.len() > 0 ==> tokens_ok(old(line).input_spec()@, tokens@),
    ensures
        final(line).wf(),
        final(line).same_line(old(line)),
        final(line).pos_spec() == old(line).pos_spec(),
        final(line).warnings_spec() == old(line).warnings_spec(),
        old(line).errors_spec().is_prefix_of(final(line).errors_spec()),
        tokens@.len() == 0 ==> {
            &&& r.inner_spec().bits_spec() == 0
            &&& r.span_spec().start_spec() == pos && r.span_spec().end_spec() == pos
            &&& final(line).errors_spec() == old(line).errors_spec()
        },
        tokens@.len() > 0 ==> {
            &&& r.span_spec().start_spec() == tokens@[0].span.start_spec()
            &&& r.span_spec().end_spec() == tokens@.last().span.end_spec()
            &&& !old(line).extensions_spec().has_bit(2) ==> r.inner_spec().bits_spec() == 0
                && (final(line).errors_spec().last() matches ParserError::ExtensionNotEnabled { .. })
            &&& old(line).extensions_spec().has_bit(2) ==> r.inner_spec().bits_spec() == modifiers_value(tokens@)
        },
{
    if tokens.len() == 0 {
        proof {
            lemma_prefix_concat(line.errors_spec(), seq![]);
        }
        return Located::new(Modifiers::empty(), Span::pos(pos));
    }
    let span = tokens_span(tokens);
    if !line.extension(Extensions::ingredient_modifiers()) {
        line.error(ParserError::ExtensionNotEnabled { span, extension_name: "ingredient modifiers" });
        proof {
            lemma_prefix_push(old(line).errors_spec(), line.errors_spec().last());
        }
        return Located::new(Modifiers::empty(), span);
    }
    let ghost l0 = *line;
    let mut acc = Modifiers::empty();
    let mut repeated = false;
    let mut i: usize = 0;
    while i < tokens.len() && !repeated
        invariant
            0 <= i <= tokens@.len(),
            line.wf(),
            line.same_line(&l0),
            line.pos_spec() == l0.pos_spec(),
            line.warnings_spec() == l0.warnings_spec(),
            l0.errors_spec().is_prefix_of(line.errors_spec()),
            tokens@.len() > 0 ==> tokens_ok(l0.input_spec()@, tokens@),
            !repeated ==> modifiers_fold(tokens@.take(i as int)) == Some(acc.bits_spec()),
            repeated ==> modifiers_fold(tokens@) is None,
        decreases tokens@.len() - i + (if repeated { 0int } else { 1int }),
    {
        let t = tokens[i];
        let new_m = modifier_of(t.kind);
        proof {
            assert(tokens@.take(i + 1).drop_last() =~= tokens@.take(i as int));
            assert(tokens@.take(i + 1).last() == tokens@[i as int]);
        }
        if acc.contains(new_m) {
            proof {
                assert(token_ok(l0.input_spec()@, tokens@[i as int]));
                lemma_fold_none_stays(tokens@, i as int + 1);
            }
            let mut reason = "duplicate modifier '".to_owned();
            reason.append(line.as_str(t));
            reason.append("'");
            let ghost lb = *line;
            line.error(
                ParserError::InvalidModifiers {
                    modifiers_span: span,
                    reason,
                    help: Some("Modifier order does not matter, but duplicates are not allowed"),
                },
            );
            proof {
                lemma_prefix_push(lb.errors_spec(), line.errors_spec().last());
                lemma_prefix_trans(l0.errors_spec(), lb.errors_spec(), line.errors_spec());
            }
            repeated = true;
        } else {
            acc = acc.union(new_m);
            i = i + 1;
        }
    }
    proof {
        if !repeated {
            assert(tokens@.take(i as int) =~= tokens@);
        }
    }
    let mut m = if repeated {
        Modifiers::empty()
    } else {
        acc
    };
    let conflict = Modifiers::forced_new().union(Modifiers::hidden()).union(Modifiers::optional());
    proof {
        assert((16u32 | 4u32) | 8u32 == 28u32) by (bit_vector);
        assert(0u32 & 2u32 == 0u32) by (bit_vector);
    }
    if m.contains(Modifiers::reference()) && m.intersects(conflict) {
        let ghost lb = *line;
        line.error(
            ParserError::InvalidModifiers {
                modifiers_span: span,
                reason: "unsuported combination with reference".to_owned(),
                help: Some("Reference ('&') modifier can only be combined with recipe ('@')"),
            },
        );
        proof {
            lemma_prefix_push(lb.errors_spec(), line.errors_spec().last());
            lemma_prefix_trans(old(line).errors_spec(), lb.errors_spec(), line.errors_spec());
        }
        m = Modifiers::empty();
    }
    Located::new(m, span)
}

/// Once a modifier repeats, the flags stay undefined.
proof fn lemma_fold_none_stays(ts: Seq<Token>, n: int)
    requires
        0 <= n <= ts.len(),
        modifiers_fold(ts.take(n)) is None,
    ensures
        modifiers_fold(ts) is None,
    decreases ts.len() - n,
{
    if n < ts.len() {
        assert(ts.take(n + 1).drop_last() =~= ts.take(n));
        lemma_fold_none_stays(ts, n + 1);
    } else {
        assert(ts.take(n) =~= ts);
    }
}

/// Parses the note `( ... )` of an ingredient, when notes are enabled and
/// one follows; parses nothing otherwise.
fn ingredient_note<'input>(line: &mut LineParser<'_, 'input>) -> (r: Option<Text<'input>>)
    requires
        old(line).wf(),
    ensures
        final(line).wf(),
        ({
            let ts = old(line).tokens_spec();
            let cs = old(line).input_spec()@;
            let p = old(line).pos_spec();
            &&& old(line).extensions_spec().has_bit(4) && note_at(ts, p) is Some ==> {
                let k = note_at(ts, p).unwrap();
                &&& r matches Some(n) && text_of(n, cs, ts[p].span.end_spec() as int, ts.subrange(p + 1, k))
                &&& final(line).moved_to(old(line), k + 1)
            }
            &&& !(old(line).extensions_spec().has_bit(4) && note_at(ts, p) is Some) ==> r is None
                && final(line).moved_to(old(line), p)
        }),
{
    if !line.extension(Extensions::ingredient_note()) {
        return None;
    }
    let ghost ts = line.tokens_spec();
    let ghost cs = line.input_spec()@;
    let ghost p = line.pos_spec();
    proof {
        if p < ts.len() {
            lemma_first_in(ts, p + 1, KindClass::Is(TokenKind::CloseParen));
            let k = first_in(ts, p + 1, KindClass::Is(TokenKind::CloseParen));
            if k < ts.len() {
                lemma_tokens_ok_subrange(cs, ts, p + 1, k);
                assert(token_ok(cs, ts[p]));
                if p + 1 < k {
                    assert(ts[p].span.end_spec() == ts[p + 1].span.start_spec());
                }
            }
        }
    }
    let cp = line.checkpoint();
    if let Ok(open) = line.consume(TokenKind::OpenParen) {
        let offset = line.current_offset();
        if let Ok(note) = line.until(KindClass::Is(TokenKind::CloseParen)) {
            let _ = line.bump(TokenKind::CloseParen);
            return Some(line.text(offset, note));
        }
    }
    line.rewind(cp);
    None
}

/// The name of an ingredient, and its alias after a `|` when aliases are
/// enabled. More than one `|`, or an empty alias, is an error and gives no
/// alias.
#[verifier::spinoff_prover]
fn name_and_alias<'input>(line: &mut LineParser<'_, 'input>, name_offset: usize, name_tokens: &[Token]) -> (r: (
    Text<'input>,
    Option<Text<'input>>,
))
    requires
        old(line).wf(),
        tokens_ok(old(line).input_spec()@, name_tokens@),
        name_tokens@.len() > 0 ==> name_offset == name_tokens@[0].span.start_spec(),
    ensures
        final(line).wf(),
        final(line).same_line(old(line)),
        final(line).pos_spec() == old(line).pos_spec(),
        final(line).warnings_spec() == old(line).warnings_spec(),
        old(line).errors_spec().is_prefix_of(final(line).errors_spec()),
        ({
            let cs = old(line).input_spec()@;
            let nt = name_tokens@;
            let k = alias_sep(nt);
            &&& !(old(line).extensions_spec().has_bit(8) && k < nt.len()) ==> {
                &&& text_of(r.0, cs, name_offset as int, nt)
                &&& r.1 is None
                &&& final(line).errors_spec() == old(line).errors_spec()
            }
            &&& old(line).extensions_spec().has_bit(8) && k < nt.len() ==> {
                let at = nt.subrange(k + 1, nt.len() as int);
                &&& text_of(r.0, cs, name_offset as int, nt.subrange(0, k))
                &&& alias_sep(at) < at.len() ==> r.1 is None && is_part_invalid(
                    final(line).errors_spec().last(),
                    "ingredient"@,
                    "alias"@,
                    "multiple aliases"@,
                )
                &&& alias_sep(at) >= at.len() && is_blank(tokens_text(cs, at)) ==> r.1 is None && is_part_invalid(
                    final(line).errors_spec().last(),
                    "ingredient"@,
                    "alias"@,
                    "is empty"@,
                )
                &&& alias_sep(at) >= at.len() && !is_blank(tokens_text(cs, at)) ==> (r.1 matches Some(a) && text_of(
                    a,
                    cs,
                    nt[k].span.end_spec() as int,
                    at,
                )) && final(line).errors_spec() == old(line).errors_spec()
            }
        }),
{
    let ghost cs = line.input_spec()@;
    let ghost nt = name_tokens@;
    proof {
        lemma_prefix_concat(line.errors_spec(), seq![]);
        lemma_first_in(nt, 0, KindClass::Is(TokenKind::Or));
    }
    let sep = if line.extension(Extensions::ingredient_alias()) {
        find_alias_sep(name_tokens)
    } else {
        None
    };
    let sep = match sep {
        Some(sep) => sep,
        None => {
            proof {
                lemma_first_in(nt, 0, KindClass::Is(TokenKind::Or));
            }
            return (line.text(name_offset, name_tokens), None);
        },
    };
    let ghost k = sep as int;
    let (name_part, alias_tokens) = name_tokens.split_at(sep);
    let (sep_slice, alias_text_tokens) = alias_tokens.split_at(1);
    let sep_token = sep_slice[0];
    proof {
        lemma_tokens_ok_subrange(cs, nt, 0, k);
        lemma_tokens_ok_subrange(cs, nt, k + 1, nt.len() as int);
        assert(k == alias_sep(nt));
        assert(name_part@ == nt.subrange(0, k));
        assert(sep_token == nt[k]);
        assert(alias_text_tokens@ =~= nt.subrange(k + 1, nt.len() as int));
        if k + 1 < nt.len() {
            assert(nt[k].span.end_spec() == nt[k + 1].span.start_spec());
        }
        lemma_first_in(alias_text_tokens@, 0, KindClass::Is(TokenKind::Or));
    }
    let alias_text = line.text(sep_token.span.end(), alias_text_tokens);
    let ghost l0 = *line;
    let alias = if find_alias_sep(alias_text_tokens).is_some() {
        let last_end = if alias_text_tokens.len() > 0 {
            alias_text_tokens[alias_text_tokens.len() - 1].span.end()
        } else {
            sep_token.span.end()
        };
        let bad_bit = Span::new(sep_token.span.start(), last_end);
        line.error(
            ParserError::ComponentPartInvalid {
                container: INGREDIENT,
                what: "alias",
                reason: "multiple aliases",
                labels: vec![(bad_bit, Some("more than one alias defined here".to_owned()))],
                help: Some("An ingrediedient can only have one alias. Remove the extra '|'."),
            },
        );
        proof {
            lemma_prefix_push(l0.errors_spec(), line.errors_spec().last());
        }
        None
    } else if alias_text.is_text_empty() {
        let alias_span = alias_text.span();
        line.error(
            ParserError::ComponentPartInvalid {
                container: INGREDIENT,
                what: "alias",
                reason: "is empty",
                labels: vec![
                    (sep_token.span, Some("remove this".to_owned())),
                    (alias_span, Some("or add something here".to_owned())),
                ],
                help: None,
            },
        );
        proof {
            lemma_prefix_push(l0.errors_spec(), line.errors_spec().last());
        }
        None
    } else {
        Some(alias_text)
    };
    let name = line.text(name_offset, name_part);
    proof {
        assert(text_of(name, cs, name_offset as int, nt.subrange(0, k)));
    }
    (name, alias)
}

/// Parses an ingredient component: `@`, modifiers, a body, and a note.
/// An empty name is an error; an alias comes out of the name when aliases
/// are enabled.
pub fn ingredient<'input>(line: &mut LineParser<'_, 'input>) -> (r: Option<Ingredient<'input>>)
    requires
        old(line).wf(),
    ensures
        final(line).wf(),
        final(line).same_line(old(line)),
        old(line).errors_spec().is_prefix_of(final(line).errors_spec()),
        old(line).warnings_spec() == final(line).warnings_spec(),
        old(line).peek_spec() != TokenKind::At ==> r is None && final(line).moved_to(old(line), old(line).pos_spec()),
        old(line).peek_spec() == TokenKind::At ==> ({
            let ts = old(line).tokens_spec();
            let cs = old(line).input_spec()@;
            let ext = old(line).extensions_spec();
            let p = old(line).pos_spec();
            let m = first_not_in(ts, p + 1, KindClass::Modifier);
            let mt = ts.subrange(p + 1, m);
            let nt = body_name(ts, m);
            let k = alias_sep(nt);
            &&& body_end(ts, m) is None ==> r is None
            &&& body_end(ts, m) matches Some(e) ==> (r matches Some(ing) && {
                &&& ext.has_bit(4) && note_at(ts, e) is Some ==> {
                    let c = note_at(ts, e).unwrap();
                    &&& final(line).pos_spec() == c + 1
                    &&& (ing.note matches Some(n) && text_of(n, cs, ts[e].span.end_spec() as int, ts.subrange(e + 1, c)))
                }
                &&& !(ext.has_bit(4) && note_at(ts, e) is Some) ==> final(line).pos_spec() == e && ing.note is None
                &&& !(ext.has_bit(8) && k < nt.len()) ==> text_of(ing.name, cs, old(line).offset_at(m), nt) && ing.alias is None
                &&& ext.has_bit(8) && k < nt.len() ==> text_of(ing.name, cs, old(line).offset_at(m), nt.subrange(0, k))
                &&& ing.alias matches Some(a) ==> text_of(a, cs, nt[k].span.end_spec() as int, nt.subrange(k + 1, nt.len() as int))
                &&& mt.len() == 0 ==> ing.modifiers.inner_spec().bits_spec() == 0
                    && ing.modifiers.span_spec().start_spec() == old(line).offset_at(p + 1)
                    && ing.modifiers.span_spec().end_spec() == old(line).offset_at(p + 1)
                &&& mt.len() > 0 && ext.has_bit(2) ==> ing.modifiers.inner_spec().bits_spec() == modifiers_value(mt)
                &&& mt.len() > 0 && !ext.has_bit(2) ==> ing.modifiers.inner_spec().bits_spec() == 0
                &&& mt.len() > 0 ==> ing.modifiers.span_spec().start_spec() == mt[0].span.start_spec()
                    && ing.modifiers.span_spec().end_spec() == mt.last().span.end_spec()
                &&& (ing.quantity is Some <==> body_quantity(ts, m) is Some)
                &&& is_blank(ing.name.chars_spec()) ==> exists|i: int|
                    old(line).errors_spec().len() <= i < final(line).errors_spec().len() && is_part_invalid(
                        #[trigger] final(line).errors_spec()[i],
                        "ingredient"@,
                        "name"@,
                        "is empty"@,
                    )
                &&& body_quantity(ts, m) matches Some(q) ==> ing.quantity.unwrap().span_spec().start_spec()
                    == q[0].span.start_spec() && ing.quantity.unwrap().span_spec().end_spec() == q.last().span.end_spec()
            })
        }),
{
    let ghost ts = line.tokens_spec();
    let ghost cs = line.input_spec()@;
    let ghost l0 = *line;
    let ghost p = l0.pos_spec();
    if line.consume(TokenKind::At).is_err() {
        return None;
    }
    let modifiers_pos = line.current_offset();
    let modifiers_tokens = modifiers(line);
    let ghost m = line.pos_spec();
    proof {
        lemma_first_not_in(ts, p + 1, KindClass::Modifier);
        lemma_body_bounds(cs, ts, m);
        lemma_tokens_ok_subrange(cs, ts, p + 1, m);
        lemma_prefix_concat(l0.errors_spec(), seq![]);
    }
    let name_offset = line.current_offset();
    let body = match comp_body(line) {
        Some(b) => b,
        None => {
            return None;
        },
    };
    let ghost e = line.pos_spec();
    proof {
        if body.name@.len() > 0 {
            assert(body.name@[0] == ts[m]);
            assert(ts[m - 1].span.end_spec() == ts[m].span.start_spec());
        }
    }
    let note = ingredient_note(line);
    let ghost l1 = *line;
    let (name, alias) = name_and_alias(line, name_offset, body.name);
    let ghost l2 = *line;
    if name.is_text_empty() {
        let span = name.span();
        line.error(
            ParserError::ComponentPartInvalid {
                container: INGREDIENT,
                what: "name",
                reason: "is empty",
                labels: vec![(span, Some("add a name here".to_owned()))],
                help: None,
            },
        );
    }
    let ghost l3 = *line;
    proof {
        lemma_prefix_same_or_push(l2.errors_spec(), l3.errors_spec());
        lemma_prefix_trans(l1.errors_spec(), l2.errors_spec(), l3.errors_spec());
    }
    let modifiers = parse_modifiers(line, modifiers_pos, modifiers_tokens);
    let ghost l4 = *line;
    let quantity = match body.quantity {
        Some(tokens) => {
            let q = line.quantity(tokens);
            Some(q.quantity)
        },
        None => None,
    };
    proof {
        lemma_prefix_concat(l4.errors_spec(), seq![]);
        lemma_prefix_trans(l3.errors_spec(), l4.errors_spec(), line.errors_spec());
        lemma_prefix_trans(l1.errors_spec(), l3.errors_spec(), line.errors_spec());
        if is_blank(name.chars_spec()) {
            let i = l2.errors_spec().len() as int;
            lemma_prefix_index(l3.errors_spec(), line.errors_spec(), i);
            assert(is_part_invalid(line.errors_spec()[i], "ingredient"@, "name"@, "is empty"@));
        }
    }
    Some(Ingredient { modifiers, name, alias, quantity, note })
}

/// A parsed step: whether it is a text step, and its items.
pub struct ParsedStep<'input> {
    pub is_text: bool,
    pub items: Vec<Item<'input>>,
}

/// The item `it` comes from the tokens `a..b` of the line: a component that
/// starts there with its sigil and spans them, or the text they make.
pub open spec fn item_from(line: LineParser, a: int, b: int, it: Item) -> bool {
    item_in(line.input_spec()@, line.tokens_spec(), line.base_offset_spec(), line.extensions_spec(), a, b, it)
}

/// The ingredient written with the `@` at token `a` of `ts` (tokens of `cs`
/// whose first starts at byte `base`), read with `ext`: its modifiers are
/// those of the modifier tokens after the `@` (none without the modifiers
/// extension), and its name is the text of its body's name, up to the `|`
/// of an alias when aliases are read.
pub open spec fn ingredient_holds(cs: Seq<char>, ts: Seq<Token>, base: int, ext: Extensions, a: int, ing: Ingredient) -> bool {
    let m = first_not_in(ts, a + 1, KindClass::Modifier);
    let mt = ts.subrange(a + 1, m);
    let nt = body_name(ts, m);
    let k = alias_sep(nt);
    &&& !(ext.has_bit(8) && k < nt.len()) ==> text_of(ing.name, cs, offset_in(ts, base, m), nt) && ing.alias is None
    &&& ext.has_bit(8) && k < nt.len() ==> text_of(ing.name, cs, offset_in(ts, base, m), nt.subrange(0, k))
    &&& mt.len() == 0 ==> ing.modifiers.inner_spec().bits_spec() == 0
    &&& mt.len() > 0 && ext.has_bit(2) ==> ing.modifiers.inner_spec().bits_spec() == modifiers_value(mt)
    &&& mt.len() > 0 && !ext.has_bit(2) ==> ing.modifiers.inner_spec().bits_spec() == 0
}

/// The cookware written with the `#` at token `a` of `ts`: its name is the
/// text of its body's name.
pub open spec fn cookware_holds(cs: Seq<char>, ts: Seq<Token>, base: int, a: int, c: Cookware) -> bool {
    let m = first_not_in(ts, a + 1, KindClass::Modifier);
    text_of(c.name, cs, offset_in(ts, base, m), body_name(ts, m))
}

/// The timer written with the `~` at token `a` of `ts`: it has a name when
/// its body's name is not blank, and then the text of that name.
pub open spec fn timer_holds(cs: Seq<char>, ts: Seq<Token>, base: int, a: int, t: Timer) -> bool {
    let m = first_not_in(ts, a + 1, KindClass::Modifier);
    &&& (t.name is None <==> is_blank(tokens_text(cs, body_name(ts, m))))
    &&& t.name matches Some(n) ==> text_of(n, cs, offset_in(ts, base, m), body_name(ts, m))
}

/// The item comes from the tokens `a..b` of `ts`, tokens of `cs` whose
/// first starts at byte `base`: a text holds what they hold, and a
/// component spans them and starts with its sigil, with what its kind
/// holds as written there.
pub open spec fn item_in(cs: Seq<char>, ts: Seq<Token>, base: int, ext: Extensions, a: int, b: int, it: Item) -> bool {
    match it {
        Item::Text(t) => text_of(t, cs, offset_in(ts, base, a), ts.subrange(a, b)),
        Item::Component(c) => {
            &&& c.span_spec().start_spec() == offset_in(ts, base, a)
            &&& c.span_spec().end_spec() == offset_in(ts, base, b)
            &&& match c.inner_spec() {
                Component::Ingredient(i) => kind_at(ts, a) == TokenKind::At && ingredient_holds(cs, ts, base, ext, a, i),
                Component::Cookware(k) => kind_at(ts, a) == TokenKind::Hash && cookware_holds(cs, ts, base, a, k),
                Component::Timer(t) => kind_at(ts, a) == TokenKind::Tilde && timer_holds(cs, ts, base, a, t),
            }
        },
    }
}

/// The items come from consecutive runs of tokens, from `bounds[0]` to
/// `bounds.last()`, one run each.
pub open spec fn items_tile(line: LineParser, items: Seq<Item>, bounds: Seq<int>) -> bool {
    items_tile_in(line.input_spec()@, line.tokens_spec(), line.base_offset_spec(), line.extensions_spec(), items, bounds)
}

/// The items come from consecutive runs of the tokens `ts` of `cs`, whose
/// first starts at byte `base`, from `bounds[0]` to `bounds.last()`, one
/// run each.
pub open spec fn items_tile_in(
    cs: Seq<char>,
    ts: Seq<Token>,
    base: int,
    ext: Extensions,
    items: Seq<Item>,
    bounds: Seq<int>,
) -> bool {
    &&& bounds.len() == items.len() + 1
    &&& forall|i: int, j: int| 0 <= i && j == i + 1 && j < bounds.len() ==> #[trigger] bounds[i] < #[trigger] bounds[j]
    &&& forall|i: int| 0 <= i < items.len() ==> item_in(cs, ts, base, ext, bounds[i], bounds[i + 1], #[trigger] items[i])
}

/// Tries the component whose sigil is next; parses nothing when there is
/// none.
fn component<'input>(line: &mut LineParser<'_, 'input>) -> (r: Option<Component<'input>>)
    requires
        old(line).wf(),
    ensures
        final(line).wf(),
        final(line).same_line(old(line)),
        old(line).errors_spec().is_prefix_of(final(line).errors_spec()),
        old(line).warnings_spec().is_prefix_of(final(line).warnings_spec()),
        r is None ==> final(line).pos_spec() == old(line).pos_spec(),
        r matches Some(c) ==> final(line).pos_spec() > old(line).pos_spec() && match c {
            Component::Ingredient(i) => old(line).peek_spec() == TokenKind::At && ingredient_holds(
                old(line).input_spec()@,
                old(line).tokens_spec(),
                old(line).base_offset_spec(),
                old(line).extensions_spec(),
                old(line).pos_spec(),
                i,
            ),
            Component::Cookware(k) => old(line).peek_spec() == TokenKind::Hash && cookware_holds(
                old(line).input_spec()@,
                old(line).tokens_spec(),
                old(line).base_offset_spec(),
                old(line).pos_spec(),
                k,
            ),
            Component::Timer(t) => old(line).peek_spec() == TokenKind::Tilde && timer_holds(
                old(line).input_spec()@,
                old(line).tokens_spec(),
                old(line).base_offset_spec(),
                old(line).pos_spec(),
                t,
            ),
        },
        ({
            let ts = old(line).tokens_spec();
            let k = old(line).peek_spec();
            let m = first_not_in(ts, old(line).pos_spec() + 1, KindClass::Modifier);
            &&& r is Some <==> ((k == TokenKind::At || k == TokenKind::Hash || k == TokenKind::Tilde) && body_end(ts, m) is Some)
            &&& r is Some ==> final(line).pos_spec() >= body_end(ts, m)->0
            &&& r is Some && k != TokenKind::At ==> final(line).pos_spec() == body_end(ts, m)->0
        }),
{
    let ghost ts = line.tokens_spec();
    let ghost cs = line.input_spec()@;
    let ghost p = line.pos_spec();
    let ghost l0 = *line;
    let cp = line.checkpoint();
    proof {
        if p < ts.len() {
            lemma_first_not_in(ts, p + 1, KindClass::Modifier);
            lemma_body_bounds(cs, ts, first_not_in(ts, p + 1, KindClass::Modifier));
            let m = first_not_in(ts, p + 1, KindClass::Modifier);
            if let Some(e) = body_end(ts, m) {
                if e < ts.len() {
                    lemma_first_in(ts, e + 1, KindClass::Is(TokenKind::CloseParen));
                }
            }
        }
        lemma_prefix_concat(l0.errors_spec(), seq![]);
        lemma_prefix_concat(l0.warnings_spec(), seq![]);
    }
    let k = line.peek();
    let c = if k == TokenKind::At {
        match ingredient(line) {
            Some(i) => Some(Component::Ingredient(i)),
            None => None,
        }
    } else if k == TokenKind::Hash {
        match cookware(line) {
            Some(c) => Some(Component::Cookware(c)),
            None => None,
        }
    } else if k == TokenKind::Tilde {
        match timer(line) {
            Some(t) => Some(Component::Timer(t)),
            None => None,
        }
    } else {
        None
    };
    if c.is_none() {
        line.rewind(cp);
    }
    c
}

/// Parses the text after a failed component: the next token and those up
/// to the next `@`, `#` or `~`.
fn text_item<'input>(line: &mut LineParser<'_, 'input>) -> (r: Text<'input>)
    requires
        old(line).wf(),
        old(line).pos_spec() < old(line).tokens_spec().len(),
    ensures
        final(line).wf(),
        ({
            let ts = old(line).tokens_spec();
            let p = old(line).pos_spec();
            let e = first_not_in(ts, p + 1, KindClass::NotComponentStart);
            &&& p < e <= ts.len()
            &&& final(line).moved_to(old(line), e)
            &&& text_of(r, old(line).input_spec()@, old(line).offset_at(p), ts.subrange(p, e))
        }),
{
    let ghost ts = line.tokens_spec();
    let ghost cs = line.input_spec()@;
    let ghost p = line.pos_spec();
    let start = line.current_offset();
    let tokens_start = line.checkpoint();
    let _ = line.bump_any();
    let _ = line.consume_while(KindClass::NotComponentStart);
    let tokens_end = line.checkpoint();
    proof {
        lemma_first_not_in(ts, p + 1, KindClass::NotComponentStart);
        lemma_tokens_ok_subrange(cs, ts, p, tokens_end as int);
        if p > 0 {
            assert(ts[p - 1].span.end_spec() == ts[p].span.start_spec());
        }
    }
    let tokens = slice_subrange(line.tokens(), tokens_start, tokens_end);
    line.text(start, tokens)
}

/// Parses a step. A step that starts with `>`, or that continues a text
/// step, is all text; otherwise components, tried at each `@`, `#` and `~`,
/// and the text between them.
pub fn step<'input>(line: &mut LineParser<'_, 'input>, force_text: bool) -> (r: ParsedStep<'input>)
    requires
        old(line).wf(),
    ensures
        final(line).wf(),
        final(line).same_line(old(line)),
        final(line).pos_spec() == old(line).tokens_spec().len(),
        old(line).errors_spec().is_prefix_of(final(line).errors_spec()),
        old(line).warnings_spec().is_prefix_of(final(line).warnings_spec()),
        r.is_text == (old(line).peek_spec() == TokenKind::TextStep),
        ({
            let ts = old(line).tokens_spec();
            let p = old(line).pos_spec();
            let q = if r.is_text { p + 1 } else { p };
            &&& r.is_text || force_text ==> r.items@.len() == 1 && item_from(*old(line), q, ts.len() as int, r.items@[0])
            &&& !(r.is_text || force_text) ==> exists|bounds: Seq<int>|
                #![trigger items_tile(*old(line), r.items@, bounds)]
                items_tile(*old(line), r.items@, bounds) && bounds[0] == p && bounds.last() == ts.len()
        }),
{
    let ghost ts = line.tokens_spec();
    let ghost cs = line.input_spec()@;
    let ghost l0 = *line;
    let ghost p = l0.pos_spec();
    let is_text = line.consume(TokenKind::TextStep).is_ok();
    let mut items: Vec<Item<'input>> = Vec::new();
    proof {
        lemma_prefix_concat(l0.errors_spec(), seq![]);
        lemma_prefix_concat(l0.warnings_spec(), seq![]);
    }
    if is_text || force_text {
        let start = line.current_offset();
        let ghost q = line.pos_spec();
        let tokens = line.consume_rest();
        proof {
            lemma_tokens_ok_subrange(cs, ts, q, ts.len() as int);
            if q > 0 && q < ts.len() {
                assert(ts[q - 1].span.end_spec() == ts[q].span.start_spec());
            }
        }
        items.push(Item::Text(line.text(start, tokens)));
        return ParsedStep { is_text, items };
    }
    let ghost mut bounds: Seq<int> = seq![p];
    while line.rest().len() > 0
        invariant
            line.wf(),
            line.same_line(&l0),
            ts == l0.tokens_spec(),
            cs == l0.input_spec()@,
            l0.errors_spec().is_prefix_of(line.errors_spec()),
            l0.warnings_spec().is_prefix_of(line.warnings_spec()),
            items_tile(l0, items@, bounds),
            bounds[0] == p,
            bounds.last() == line.pos_spec(),
        decreases ts.len() - line.pos_spec(),
    {
        let ghost a = line.pos_spec();
        let ghost la = *line;
        let start = line.current_offset();
        let c = component(line);
        match c {
            Some(c) => {
                let end = line.current_offset();
                items.push(Item::Component(Box::new(Located::new(c, Span::new(start, end)))));
            },
            None => {
                let t = text_item(line);
                items.push(Item::Text(t));
            },
        }
        proof {
            let b = line.pos_spec();
            let old_bounds = bounds;
            bounds = bounds.push(b);
            assert forall|i: int| 0 <= i < items@.len() implies item_from(l0, bounds[i], bounds[i + 1], #[trigger] items@[i]) by {
                if i < items@.len() - 1 {
                    assert(bounds[i] == old_bounds[i]);
                    assert(bounds[i + 1] == old_bounds[i + 1]);
                }
            }
            lemma_prefix_trans(l0.errors_spec(), la.errors_spec(), line.errors_spec());
            lemma_prefix_trans(l0.warnings_spec(), la.warnings_spec(), line.warnings_spec());
        }
    }
    proof {
        assert(items_tile(l0, items@, bounds));
    }
    ParsedStep { is_text: false, items }
}

} // verus!
