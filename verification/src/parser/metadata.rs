//! Metadata lines: `>> key: value`.
use vstd::prelude::*;

use crate::ast::{is_blank, is_trim_of, Text};
use crate::parser::parser::{
    fatal_err, first_in, lemma_first_in, lemma_tokens_ok_subrange, text_of, tokens_text, KindClass, LineParser,
    ParseResult,
};
use crate::parser::token_stream::TokenKind;
use crate::parser::{is_part_invalid, ParserError, ParserWarning};

verus! {

/// The key and value of a metadata line.
pub struct MetadataEntry<'input> {
    pub key: Text<'input>,
    pub value: Text<'input>,
}

/// Parses a metadata line: `>>`, a key up to the first `:`, and a value
/// that is the rest of the line. Fails when the line does not start with
/// `>>` or has no `:`. An empty key is an error; an empty value, with a
/// key, a warning.
pub fn metadata_entry<'t, 'input>(line: &mut LineParser<'t, 'input>) -> (r: ParseResult<MetadataEntry<'input>>)
    requires
        old(line).wf(),
    ensures
        final(line).wf(),
        final(line).same_line(old(line)),
        old(line).peek_spec() != TokenKind::MetadataStart ==> r is Err && final(line).moved_to(
            old(line),
            old(line).pos_spec(),
        ),
        old(line).peek_spec() == TokenKind::MetadataStart ==> ({
            let ts = old(line).tokens_spec();
            let cs = old(line).input_spec()@;
            let c = old(line).pos_spec();
            let k = first_in(ts, c + 1, KindClass::Is(TokenKind::Colon));
            &&& k == ts.len() ==> r is Err && final(line).moved_to(old(line), c + 1)
            &&& k < ts.len() ==> (r matches Ok(entry) && {
                let key_chars = tokens_text(cs, ts.subrange(c + 1, k));
                let value_chars = tokens_text(cs, ts.subrange(k + 1, ts.len() as int));
                &&& final(line).pos_spec() == ts.len()
                &&& text_of(entry.key, cs, old(line).offset_at(c + 1), ts.subrange(c + 1, k))
                &&& entry.key.chars_spec() == key_chars
                &&& text_of(entry.value, cs, old(line).offset_at(k + 1), ts.subrange(k + 1, ts.len() as int))
                &&& entry.value.chars_spec() == value_chars
                &&& is_blank(key_chars) ==> {
                    &&& final(line).warnings_spec() == old(line).warnings_spec()
                    &&& final(line).errors_spec() == old(line).errors_spec().push(final(line).errors_spec().last())
                    &&& is_part_invalid(final(line).errors_spec().last(), "metadata entry"@, "key"@, "is empty"@)
                }
                &&& !is_blank(key_chars) && is_blank(value_chars) ==> {
                    &&& final(line).errors_spec() == old(line).errors_spec()
                    &&& final(line).warnings_spec() == old(line).warnings_spec().push(final(line).warnings_spec().last())
                    &&& (final(line).warnings_spec().last() matches ParserWarning::EmptyMetadataValue { key }
                        && is_trim_of(key_chars, key.inner_spec()@))
                }
                &&& !is_blank(key_chars) && !is_blank(value_chars) ==> {
                    &&& final(line).errors_spec() == old(line).errors_spec()
                    &&& final(line).warnings_spec() == old(line).warnings_spec()
                }
            })
        }),
{
    let ghost ts = line.tokens_spec();
    let ghost cs = line.input_spec()@;
    let ghost c = line.pos_spec();
    match line.consume(TokenKind::MetadataStart) {
        Ok(_) => {},
        Err(_) => {
            return fatal_err();
        },
    }
    let key_pos = line.current_offset();
    let ghost k = first_in(ts, c + 1, KindClass::Is(TokenKind::Colon));
    proof {
        lemma_first_in(ts, c + 1, KindClass::Is(TokenKind::Colon));
    }
    let key_tokens = match line.until(KindClass::Is(TokenKind::Colon)) {
        Ok(t) => t,
        Err(_) => {
            return fatal_err();
        },
    };
    proof {
        lemma_tokens_ok_subrange(cs, ts, c + 1, k);
        lemma_tokens_ok_subrange(cs, ts, k + 1, ts.len() as int);
        assert(ts[c].span.end_spec() == ts[c + 1].span.start_spec());
        if k + 1 < ts.len() {
            assert(ts[k].span.end_spec() == ts[k + 1].span.start_spec());
        }
    }
    let key = line.text(key_pos, key_tokens);
    let _ = line.bump(TokenKind::Colon);
    let value_pos = line.current_offset();
    let value_tokens = line.consume_rest();
    let value = line.text(value_pos, value_tokens);
    if key.is_text_empty() {
        let span = key.span();
        line.error(
            ParserError::ComponentPartInvalid {
                container: "metadata entry",
                what: "key",
                reason: "is empty",
                labels: vec![(span, Some("this cannot be empty".to_owned()))],
                help: None,
            },
        );
    } else if value.is_text_empty() {
        line.warn(ParserWarning::EmptyMetadataValue { key: key.located_string() });
    }
    Ok(MetadataEntry { key, value })
}

} // verus!
