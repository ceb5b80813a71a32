//! Section lines: `= name =`.
use vstd::prelude::*;

use crate::ast::{is_blank, Text};
use crate::parser::parser::{
    fatal_err, first_not_in, lemma_first_not_in, lemma_tokens_ok_subrange, text_of, tokens_text, KindClass,
    LineParser, ParseResult,
};
use crate::parser::token_stream::{Token, TokenKind};

verus! {

/// Where the parts of a section line end, the line's first `=` being at
/// `c`: the opening `=`s, the name, the closing `=`s.
pub open spec fn section_bounds(ts: Seq<Token>, c: int) -> (int, int, int) {
    let i2 = first_not_in(ts, c + 1, KindClass::Is(TokenKind::Eq));
    let i3 = first_not_in(ts, i2, KindClass::IsNot(TokenKind::Eq));
    let i4 = first_not_in(ts, i3, KindClass::Is(TokenKind::Eq));
    (i2, i3, i4)
}

/// Parses a section line: one or more `=`, a name without `=`, and
/// optionally more `=`. Fails when something follows the closing `=`s, or
/// when the line does not start with `=`. A name that is only white space
/// gives no name.
pub fn section<'t, 'input>(line: &mut LineParser<'t, 'input>) -> (r: ParseResult<Option<Text<'input>>>)
    requires
        old(line).wf(),
    ensures
        final(line).wf(),
        final(line).same_line(old(line)),
        final(line).errors_spec() == old(line).errors_spec(),
        final(line).warnings_spec() == old(line).warnings_spec(),
        old(line).peek_spec() != TokenKind::Eq ==> r is Err && final(line).pos_spec() == old(line).pos_spec(),
        old(line).peek_spec() == TokenKind::Eq ==> ({
            let ts = old(line).tokens_spec();
            let cs = old(line).input_spec()@;
            let (i2, i3, i4) = section_bounds(ts, old(line).pos_spec());
            let name = ts.subrange(i2, i3);
            &&& final(line).pos_spec() == i4
            &&& (r is Err <==> i4 < ts.len())
            &&& (r matches Ok(None) ==> is_blank(tokens_text(cs, name)))
            &&& (r matches Ok(Some(t)) ==> text_of(t, cs, old(line).offset_at(i2), name)
                && t.chars_spec() == tokens_text(cs, name) && !is_blank(t.chars_spec()))
        }),
{
    let ghost ts = line.tokens_spec();
    let ghost cs = line.input_spec()@;
    let ghost c = line.pos_spec();
    match line.consume(TokenKind::Eq) {
        Ok(_) => {},
        Err(_) => {
            return fatal_err();
        },
    }
    let _ = line.consume_while(KindClass::Is(TokenKind::Eq));
    let name_pos = line.current_offset();
    let name_tokens = line.consume_while(KindClass::IsNot(TokenKind::Eq));
    let ghost (i2, i3, i4) = section_bounds(ts, c);
    proof {
        lemma_first_not_in(ts, c + 1, KindClass::Is(TokenKind::Eq));
        lemma_first_not_in(ts, i2, KindClass::IsNot(TokenKind::Eq));
        lemma_tokens_ok_subrange(cs, ts, i2, i3);
        if i2 < i3 {
            assert(ts[i2 - 1].span.end_spec() == ts[i2].span.start_spec());
        }
    }
    let name = line.text(name_pos, name_tokens);
    let _ = line.consume_while(KindClass::Is(TokenKind::Eq));
    proof {
        lemma_first_not_in(ts, i3, KindClass::Is(TokenKind::Eq));
    }
    if !line.rest().is_empty() {
        return fatal_err();
    }
    if name.is_text_empty() {
        Ok(None)
    } else {
        Ok(Some(name))
    }
}

} // verus!
