//! Line parsing: the primitives that read the tokens of one line, and the
//! texts that they build.
use vstd::prelude::*;

use crate::ast::{Ast, Line, Text, TextFragment};
use crate::context::Context;
use crate::encoding::{byte_len, byte_pos, is_char_pos, lemma_byte_pos_mono, lemma_byte_pos_next, str_slice};
use crate::extensions::Extensions;
use crate::parser::token_stream::{
    char_index, chars_between, input_tokens, lemma_input_tokens_ok, token_ok, tokens_ok, Token, TokenKind,
    TokenStream,
};
use crate::error::PassResult;
use crate::parser::metadata::metadata_entry;
use crate::parser::quantity::{parse_quantity, quantity_parsed, ParsedQuantity};
use crate::parser::section::{section, section_bounds};
use crate::parser::step::{item_in, items_tile, items_tile_in, step};
use crate::parser::{ParserError, ParserWarning};
use crate::span::Span;
use vstd::slice::slice_subrange;

verus! {

/// A line comment or a block comment.
pub open spec fn is_comment(k: TokenKind) -> bool {
    k == TokenKind::LineComment || k == TokenKind::BlockComment
}

/// The byte ranges of the text that the tokens from `k` on add, with the
/// pending range `start..end`: comments end a range and are left out, an
/// escape ends a range and leaves out its backslash.
pub open spec fn text_ranges(ts: Seq<Token>, k: int, start: int, end: int) -> Seq<(int, int)>
    decreases ts.len() - k,
{
    if k < 0 || k >= ts.len() {
        if start < end { seq![(start, end)] } else { seq![] }
    } else {
        let ts_start = ts[k].span.start_spec() as int;
        let ts_end = ts[k].span.end_spec() as int;
        if is_comment(ts[k].kind) {
            (if start < end { seq![(start, end)] } else { seq![] }) + text_ranges(ts, k + 1, ts_end, ts_end)
        } else if ts[k].kind == TokenKind::Escaped {
            (if start < ts_start { seq![(start, ts_start)] } else { seq![] }) + text_ranges(ts, k + 1, ts_start + 1, ts_end)
        } else {
            text_ranges(ts, k + 1, start, ts_end)
        }
    }
}

/// The byte ranges of the text that the tokens `ts` make.
pub open spec fn token_text_ranges(ts: Seq<Token>) -> Seq<(int, int)> {
    if ts.len() == 0 {
        seq![]
    } else {
        let s = ts[0].span.start_spec() as int;
        text_ranges(ts, 0, s, s)
    }
}

/// `t` is the text at `offset` whose fragments hold the characters of `cs`
/// in the byte ranges `ranges`.
pub open spec fn text_is(t: Text, cs: Seq<char>, offset: int, ranges: Seq<(int, int)>) -> bool {
    &&& t.wf()
    &&& t.offset_spec() == offset
    &&& t.fragments_spec().len() == ranges.len()
    &&& forall|k: int| 0 <= k < ranges.len() ==> (#[trigger] t.fragments_spec()[k]).chars_spec() == chars_between(cs, ranges[k].0, ranges[k].1)
}

/// The characters of `cs` in the byte ranges `rs`, one range after the other.
pub open spec fn ranges_chars(cs: Seq<char>, rs: Seq<(int, int)>) -> Seq<char>
    decreases rs.len(),
{
    if rs.len() == 0 {
        Seq::empty()
    } else {
        ranges_chars(cs, rs.drop_last()) + chars_between(cs, rs.last().0, rs.last().1)
    }
}

/// The characters of the text that the tokens `ts` make.
pub open spec fn tokens_text(cs: Seq<char>, ts: Seq<Token>) -> Seq<char> {
    ranges_chars(cs, token_text_ranges(ts))
}

/// Fragments that hold the characters of the ranges, one each, hold all of
/// them together.
proof fn lemma_frags_ranges(fs: Seq<TextFragment>, cs: Seq<char>, rs: Seq<(int, int)>)
    requires
        fs.len() == rs.len(),
        forall|k: int| 0 <= k < rs.len() ==> (#[trigger] fs[k]).chars_spec() == chars_between(cs, rs[k].0, rs[k].1),
    ensures
        crate::ast::frags_chars(fs) == ranges_chars(cs, rs),
    decreases rs.len(),
{
    if rs.len() > 0 {
        let fs2 = fs.drop_last();
        let rs2 = rs.drop_last();
        assert forall|k: int| 0 <= k < rs2.len() implies (#[trigger] fs2[k]).chars_spec() == chars_between(cs, rs2[k].0, rs2[k].1) by {
            assert(fs2[k] == fs[k]);
            assert(rs2[k] == rs[k]);
        }
        lemma_frags_ranges(fs2, cs, rs2);
        assert(fs[fs.len() - 1].chars_spec() == chars_between(cs, rs[rs.len() - 1].0, rs[rs.len() - 1].1));
    }
}

/// The characters of a text are those of its ranges.
pub proof fn lemma_text_is_chars(t: Text, cs: Seq<char>, offset: int, rs: Seq<(int, int)>)
    requires
        text_is(t, cs, offset, rs),
    ensures
        t.chars_spec() == ranges_chars(cs, rs),
{
    lemma_frags_ranges(t.fragments_spec(), cs, rs);
}

/// `t` is the text that the tokens `ts` make at `offset`.
pub open spec fn text_of(t: Text, cs: Seq<char>, offset: int, ts: Seq<Token>) -> bool {
    text_is(t, cs, offset, token_text_ranges(ts))
}

/// The result of a parsing function that can fail.
pub type ParseResult<T> = Result<T, ()>;

/// The failed parse.
pub fn fatal_err<T>() -> (r: ParseResult<T>)
    ensures
        r is Err,
{
    ParseResult::Err(())
}

/// The value of a failure.
pub fn fatal() -> (r: ())
    ensures
        r == (),
{
    ()
}

/// The span from the start of the first token to the end of the last one.
pub fn tokens_span(tokens: &[Token]) -> (s: Span)
    requires
        tokens@.len() > 0,
    ensures
        s.start_spec() == tokens@[0].span.start_spec(),
        s.end_spec() == tokens@.last().span.end_spec(),
{
    let start = tokens[0].span.start();
    let end = tokens[tokens.len() - 1].span.end();
    Span::new(start, end)
}

/// The kinds of token that the line parser looks for.
#[derive(Debug, Clone, Copy, PartialEq, Eq)]
pub enum KindClass {
    /// Just this kind.
    Is(TokenKind),
    /// Any kind but this one.
    IsNot(TokenKind),
    /// Anything but the start of a component: `@`, `#` or `~`.
    NotComponentStart,
    /// Where the long name of a component ends: `{` or the start of a
    /// component.
    NameEnd,
    /// A word or a number.
    Atom,
    /// An ingredient modifier: `@`, `&`, `?`, `+` or `-`.
    Modifier,
    /// White space or a comment.
    Blank,
    /// Anything but a value or unit separator: `|`, `*` or `%`.
    NotValueSep,
}

/// The start of a component.
pub open spec fn is_component_start(k: TokenKind) -> bool {
    k == TokenKind::At || k == TokenKind::Hash || k == TokenKind::Tilde
}

/// Whether `k` belongs to the class `c`.
pub open spec fn in_class(k: TokenKind, c: KindClass) -> bool {
    match c {
        KindClass::Is(x) => k == x,
        KindClass::IsNot(x) => k != x,
        KindClass::NotComponentStart => !is_component_start(k),
        KindClass::NameEnd => k == TokenKind::OpenBrace || is_component_start(k),
        KindClass::Atom => k == TokenKind::Word || k == TokenKind::Int || k == TokenKind::Float,
        KindClass::Modifier => {
            k == TokenKind::At || k == TokenKind::And || k == TokenKind::Question || k == TokenKind::Plus
                || k == TokenKind::Minus
        },
        KindClass::Blank => k == TokenKind::Whitespace || is_comment(k),
        KindClass::NotValueSep => !(k == TokenKind::Or || k == TokenKind::Star || k == TokenKind::Percent),
    }
}

impl KindClass {
    /// Whether `k` belongs to the class.
    pub fn contains(self, k: TokenKind) -> (r: bool)
        ensures
            r == in_class(k, self),
    {
        match self {
            KindClass::Is(x) => k == x,
            KindClass::IsNot(x) => k != x,
            KindClass::NotComponentStart => !(k == TokenKind::At || k == TokenKind::Hash || k == TokenKind::Tilde),
            KindClass::NameEnd => {
                k == TokenKind::OpenBrace || k == TokenKind::At || k == TokenKind::Hash || k == TokenKind::Tilde
            },
            KindClass::Atom => k == TokenKind::Word || k == TokenKind::Int || k == TokenKind::Float,
            KindClass::Modifier => {
                k == TokenKind::At || k == TokenKind::And || k == TokenKind::Question || k == TokenKind::Plus
                    || k == TokenKind::Minus
            },
            KindClass::Blank => {
                k == TokenKind::Whitespace || k == TokenKind::LineComment || k == TokenKind::BlockComment
            },
            KindClass::NotValueSep => !(k == TokenKind::Or || k == TokenKind::Star || k == TokenKind::Percent),
        }
    }
}

/// The first index from `from` on whose token is of class `c`, or the
/// number of tokens when there is none.
pub open spec fn first_in(ts: Seq<Token>, from: int, c: KindClass) -> int
    decreases ts.len() - from,
{
    if from < 0 || from >= ts.len() {
        ts.len() as int
    } else if in_class(ts[from].kind, c) {
        from
    } else {
        first_in(ts, from + 1, c)
    }
}

/// The first index from `from` on whose token is not of class `c`, or the
/// number of tokens when there is none.
pub open spec fn first_not_in(ts: Seq<Token>, from: int, c: KindClass) -> int
    decreases ts.len() - from,
{
    if from < 0 || from >= ts.len() {
        ts.len() as int
    } else if !in_class(ts[from].kind, c) {
        from
    } else {
        first_not_in(ts, from + 1, c)
    }
}

/// `first_in` lies between `from` and the end, and no token before it is of
/// the class.
pub proof fn lemma_first_in(ts: Seq<Token>, from: int, c: KindClass)
    requires
        0 <= from <= ts.len(),
    ensures
        from <= first_in(ts, from, c) <= ts.len(),
        first_in(ts, from, c) < ts.len() ==> in_class(ts[first_in(ts, from, c)].kind, c),
        forall|j: int| from <= j < first_in(ts, from, c) ==> !in_class(#[trigger] ts[j].kind, c),
    decreases ts.len() - from,
{
    if from < ts.len() && !in_class(ts[from].kind, c) {
        lemma_first_in(ts, from + 1, c);
    }
}

/// `first_not_in` lies between `from` and the end, and every token before
/// it is of the class.
pub proof fn lemma_first_not_in(ts: Seq<Token>, from: int, c: KindClass)
    requires
        0 <= from <= ts.len(),
    ensures
        from <= first_not_in(ts, from, c) <= ts.len(),
        first_not_in(ts, from, c) < ts.len() ==> !in_class(ts[first_not_in(ts, from, c)].kind, c),
        forall|j: int| from <= j < first_not_in(ts, from, c) ==> in_class(#[trigger] ts[j].kind, c),
    decreases ts.len() - from,
{
    if from < ts.len() && in_class(ts[from].kind, c) {
        lemma_first_not_in(ts, from + 1, c);
    }
}

/// Tokens that are well placed stay so when a part of them is taken.
pub proof fn lemma_tokens_ok_subrange(cs: Seq<char>, ts: Seq<Token>, a: int, b: int)
    requires
        tokens_ok(cs, ts),
        0 <= a <= b <= ts.len(),
    ensures
        tokens_ok(cs, ts.subrange(a, b)),
{
    let sub = ts.subrange(a, b);
    assert forall|k: int| 0 <= k < sub.len() implies token_ok(cs, #[trigger] sub[k]) by {
        assert(sub[k] == ts[a + k]);
    }
    assert forall|j: int, k: int| 0 <= j && k == j + 1 && k < sub.len() implies #[trigger] sub[j].span.end_spec()
        == #[trigger] sub[k].span.start_spec() by {
        assert(sub[j] == ts[a + j]);
        assert(sub[k] == ts[a + k]);
    }
}

/// The byte offset after the first `k` of the tokens `ts`, which start at
/// `base`.
pub open spec fn offset_in(ts: Seq<Token>, base: int, k: int) -> int {
    if k > 0 {
        ts[k - 1].span.end_spec() as int
    } else {
        base
    }
}

/// Parses the tokens of one line.
pub struct LineParser<'t, 'input> {
    base_offset: usize,
    tokens: &'t [Token],
    current: usize,
    input: &'input str,
    context: Context<ParserError, ParserWarning>,
    extensions: Extensions,
}

impl<'t, 'input> LineParser<'t, 'input> {
    /// The tokens of the line.
    pub closed spec fn tokens_spec(&self) -> Seq<Token> {
        self.tokens@
    }

    /// How many tokens have been parsed.
    pub closed spec fn pos_spec(&self) -> int {
        self.current as int
    }

    /// The whole input.
    pub closed spec fn input_spec(&self) -> &'input str {
        self.input
    }

    /// The byte offset where the line starts.
    pub closed spec fn base_offset_spec(&self) -> int {
        self.base_offset as int
    }

    /// The extensions in force.
    pub closed spec fn extensions_spec(&self) -> Extensions {
        self.extensions
    }

    /// The errors found so far.
    pub closed spec fn errors_spec(&self) -> Seq<ParserError> {
        self.context.errors@
    }

    /// The warnings found so far.
    pub closed spec fn warnings_spec(&self) -> Seq<ParserWarning> {
        self.context.warnings@
    }

    /// The line's invariant: its tokens are well placed in the input, they
    /// start at the base offset, and the position is within them.
    pub open spec fn wf(&self) -> bool {
        &&& 0 <= self.pos_spec() <= self.tokens_spec().len()
        &&& tokens_ok(self.input_spec()@, self.tokens_spec())
        &&& byte_len(self.input_spec()@) <= usize::MAX
        &&& self.tokens_spec().len() > 0 ==> self.base_offset_spec() == self.tokens_spec()[0].span.start_spec()
    }

    /// The byte offset after the first `k` tokens.
    pub open spec fn offset_at(&self, k: int) -> int {
        offset_in(self.tokens_spec(), self.base_offset_spec(), k)
    }

    /// The byte offset after the parsed tokens.
    pub open spec fn offset_spec(&self) -> int {
        self.offset_at(self.pos_spec())
    }

    /// The kind of the token at `k`, or [TokenKind::Eof] past the end.
    pub open spec fn kind_at(&self, k: int) -> TokenKind {
        if 0 <= k < self.tokens_spec().len() {
            self.tokens_spec()[k].kind
        } else {
            TokenKind::Eof
        }
    }

    /// The kind of the next token, or [TokenKind::Eof].
    pub open spec fn peek_spec(&self) -> TokenKind {
        self.kind_at(self.pos_spec())
    }

    /// `self` reads the same tokens of the same input as `other`.
    pub open spec fn same_line(&self, other: &Self) -> bool {
        &&& self.tokens_spec() == other.tokens_spec()
        &&& self.input_spec() == other.input_spec()
        &&& self.base_offset_spec() == other.base_offset_spec()
        &&& self.extensions_spec() == other.extensions_spec()
    }

    /// Only the position changed, and it is now `pos`.
    pub open spec fn moved_to(&self, other: &Self, pos: int) -> bool {
        &&& self.same_line(other)
        &&& self.errors_spec() == other.errors_spec()
        &&& self.warnings_spec() == other.warnings_spec()
        &&& self.pos_spec() == pos
    }

    /// The same line, with the errors `extra` added and the position now
    /// `pos`.
    pub open spec fn advanced(&self, other: &Self, pos: int, extra: Seq<ParserError>) -> bool {
        &&& self.same_line(other)
        &&& self.warnings_spec() == other.warnings_spec()
        &&& self.errors_spec() == other.errors_spec() + extra
        &&& self.pos_spec() == pos
    }

    /// Creates it from its parts: `line` are adjacent tokens of `input`,
    /// starting at `base_offset`.
    pub fn new(base_offset: usize, line: &'t [Token], input: &'input str, extensions: Extensions) -> (p: Self)
        requires
            tokens_ok(input@, line@),
            byte_len(input@) <= usize::MAX,
            line@.len() > 0 ==> base_offset == line@[0].span.start_spec(),
        ensures
            p.wf(),
            p.base_offset_spec() == base_offset,
            p.tokens_spec() == line@,
            p.pos_spec() == 0,
            p.input_spec() == input,
            p.extensions_spec() == extensions,
            p.errors_spec().len() == 0,
            p.warnings_spec().len() == 0,
    {
        Self { base_offset, tokens: line, current: 0, input, context: Context::new(), extensions }
    }

    /// Ends the line; every token must have been parsed.
    pub fn finish(self) -> (c: Context<ParserError, ParserWarning>)
        requires
            self.pos_spec() == self.tokens_spec().len(),
        ensures
            c.errors@ == self.errors_spec(),
            c.warnings@ == self.warnings_spec(),
    {
        self.context
    }

    /// Whether the extension `ext` is enabled.
    pub fn extension(&self, ext: Extensions) -> (r: bool)
        ensures
            r == self.extensions_spec().contains_spec(ext),
    {
        self.extensions.contains(ext)
    }

    /// The extensions in force.
    pub fn extensions(&self) -> (r: Extensions)
        ensures
            r == self.extensions_spec(),
    {
        self.extensions
    }

    /// The whole input.
    pub fn input(&self) -> (r: &'input str)
        ensures
            r == self.input_spec(),
    {
        self.input
    }

    /// The position, to come back to with [Self::rewind].
    pub fn checkpoint(&self) -> (r: usize)
        ensures
            r == self.pos_spec(),
    {
        self.current
    }

    /// Goes back to a position taken before: tokens eaten since are
    /// restored, errors and warnings stay.
    pub fn rewind(&mut self, pos: usize)
        requires
            old(self).wf(),
            pos <= old(self).tokens_spec().len(),
        ensures
            final(self).wf(),
            final(self).moved_to(old(self), pos as int),
    {
        self.current = pos;
    }

    /// The byte offset after the parsed tokens.
    pub fn current_offset(&self) -> (r: usize)
        requires
            self.wf(),
        ensures
            r == self.offset_spec(),
    {
        if self.current > 0 {
            self.tokens[self.current - 1].span.end()
        } else {
            self.base_offset
        }
    }

    /// All the tokens of the line.
    pub fn tokens(&self) -> (r: &'t [Token])
        ensures
            r@ == self.tokens_spec(),
    {
        self.tokens
    }

    /// The tokens parsed so far.
    pub fn parsed(&self) -> (r: &'t [Token])
        requires
            self.wf(),
        ensures
            r@ == self.tokens_spec().subrange(0, self.pos_spec()),
    {
        self.tokens.split_at(self.current).0
    }

    /// The tokens not parsed yet.
    pub fn rest(&self) -> (r: &'t [Token])
        requires
            self.wf(),
        ensures
            r@ == self.tokens_spec().subrange(self.pos_spec(), self.tokens_spec().len() as int),
    {
        self.tokens.split_at(self.current).1
    }

    /// Parses every remaining token and returns them.
    pub fn consume_rest(&mut self) -> (r: &'t [Token])
        requires
            old(self).wf(),
        ensures
            final(self).wf(),
            r@ == old(self).tokens_spec().subrange(old(self).pos_spec(), old(self).tokens_spec().len() as int),
            final(self).moved_to(old(self), old(self).tokens_spec().len() as int),
    {
        let r = self.rest();
        self.current = self.tokens.len();
        r
    }

    /// The kind of the next token, without parsing it; [TokenKind::Eof] at
    /// the end.
    pub fn peek(&self) -> (k: TokenKind)
        requires
            self.wf(),
        ensures
            k == self.peek_spec(),
    {
        if self.current < self.tokens.len() {
            self.tokens[self.current].kind
        } else {
            TokenKind::Eof
        }
    }

    /// Whether the next token is of kind `kind`.
    pub fn at(&self, kind: TokenKind) -> (r: bool)
        requires
            self.wf(),
        ensures
            r == (self.peek_spec() == kind),
    {
        self.peek() == kind
    }

    /// Parses the next token, if there is one.
    pub fn next(&mut self) -> (r: Option<Token>)
        requires
            old(self).wf(),
        ensures
            final(self).wf(),
            old(self).pos_spec() < old(self).tokens_spec().len() ==> {
                &&& r == Some(old(self).tokens_spec()[old(self).pos_spec()])
                &&& final(self).moved_to(old(self), old(self).pos_spec() + 1)
            },
            old(self).pos_spec() == old(self).tokens_spec().len() ==> {
                &&& r is None
                &&& final(self).moved_to(old(self), old(self).pos_spec())
            },
    {
        if self.current < self.tokens.len() {
            let t = self.tokens[self.current];
            self.current = self.current + 1;
            Some(t)
        } else {
            None
        }
    }

    /// Parses the next token, which must be there.
    pub fn bump_any(&mut self) -> (t: Token)
        requires
            old(self).wf(),
            old(self).pos_spec() < old(self).tokens_spec().len(),
        ensures
            final(self).wf(),
            t == old(self).tokens_spec()[old(self).pos_spec()],
            final(self).moved_to(old(self), old(self).pos_spec() + 1),
    {
        let t = self.tokens[self.current];
        self.current = self.current + 1;
        t
    }

    /// Parses the next token, which must be of kind `expected`.
    pub fn bump(&mut self, expected: TokenKind) -> (t: Token)
        requires
            old(self).wf(),
            old(self).peek_spec() == expected,
            expected != TokenKind::Eof,
        ensures
            final(self).wf(),
            t == old(self).tokens_spec()[old(self).pos_spec()],
            t.kind == expected,
            final(self).moved_to(old(self), old(self).pos_spec() + 1),
    {
        self.bump_any()
    }

    /// Parses the tokens up to the first one of class `c`, which is left;
    /// fails, parsing nothing, when there is none.
    pub fn until(&mut self, c: KindClass) -> (r: ParseResult<&'t [Token]>)
        requires
            old(self).wf(),
        ensures
            final(self).wf(),
            ({
                let ts = old(self).tokens_spec();
                let j = first_in(ts, old(self).pos_spec(), c);
                &&& j < ts.len() ==> r == Ok::<&'t [Token], ()>(r->Ok_0) && r->Ok_0@ == ts.subrange(old(self).pos_spec(), j)
                    && final(self).moved_to(old(self), j)
                &&& j == ts.len() ==> r is Err && final(self).moved_to(old(self), old(self).pos_spec())
            }),
    {
        let ghost ts = self.tokens@;
        proof {
            lemma_first_in(ts, self.current as int, c);
        }
        let mut j = self.current;
        while j < self.tokens.len() && !c.contains(self.tokens[j].kind)
            invariant
                ts == self.tokens@,
                self.current <= j <= ts.len(),
                first_in(ts, self.current as int, c) == first_in(ts, j as int, c),
            decreases ts.len() - j,
        {
            j = j + 1;
        }
        if j == self.tokens.len() {
            return fatal_err();
        }
        let s = slice_subrange(self.tokens, self.current, j);
        self.current = j;
        Ok(s)
    }

    /// Parses the tokens while they are of class `c`, and returns them.
    pub fn consume_while(&mut self, c: KindClass) -> (r: &'t [Token])
        requires
            old(self).wf(),
        ensures
            final(self).wf(),
            ({
                let j = first_not_in(old(self).tokens_spec(), old(self).pos_spec(), c);
                &&& r@ == old(self).tokens_spec().subrange(old(self).pos_spec(), j)
                &&& final(self).moved_to(old(self), j)
            }),
    {
        let ghost ts = self.tokens@;
        proof {
            lemma_first_not_in(ts, self.current as int, c);
        }
        let mut j = self.current;
        while j < self.tokens.len() && c.contains(self.tokens[j].kind)
            invariant
                ts == self.tokens@,
                self.current <= j <= ts.len(),
                first_not_in(ts, self.current as int, c) == first_not_in(ts, j as int, c),
            decreases ts.len() - j,
        {
            j = j + 1;
        }
        let s = slice_subrange(self.tokens, self.current, j);
        self.current = j;
        s
    }

    /// Parses white space and comments.
    pub fn ws_comments(&mut self) -> (r: &'t [Token])
        requires
            old(self).wf(),
        ensures
            final(self).wf(),
            ({
                let j = first_not_in(old(self).tokens_spec(), old(self).pos_spec(), KindClass::Blank);
                &&& r@ == old(self).tokens_spec().subrange(old(self).pos_spec(), j)
                &&& final(self).moved_to(old(self), j)
            }),
    {
        self.consume_while(KindClass::Blank)
    }

    /// Parses the next token when it is of kind `expected`; fails, parsing
    /// nothing, otherwise.
    pub fn consume(&mut self, expected: TokenKind) -> (r: ParseResult<Token>)
        requires
            old(self).wf(),
            expected != TokenKind::Eof,
        ensures
            final(self).wf(),
            old(self).peek_spec() == expected ==> {
                &&& r == Ok::<Token, ()>(old(self).tokens_spec()[old(self).pos_spec()])
                &&& final(self).moved_to(old(self), old(self).pos_spec() + 1)
            },
            old(self).peek_spec() != expected ==> {
                &&& r is Err
                &&& final(self).moved_to(old(self), old(self).pos_spec())
            },
    {
        if self.at(expected) {
            Ok(self.bump_any())
        } else {
            Err(fatal())
        }
    }

    /// Parses `tokens` as a quantity, recording its errors here.
    pub fn quantity(&mut self, tokens: &[Token]) -> (r: ParsedQuantity<'input>)
        requires
            old(self).wf(),
            tokens@.len() > 0,
            tokens_ok(old(self).input_spec()@, tokens@),
        ensures
            final(self).wf(),
            final(self).same_line(old(self)),
            final(self).pos_spec() == old(self).pos_spec(),
            final(self).warnings_spec() == old(self).warnings_spec(),
            quantity_parsed(
                old(self).extensions_spec(),
                old(self).input_spec()@,
                tokens@,
                r,
                old(self).errors_spec(),
                final(self).errors_spec(),
            ),
    {
        parse_quantity(tokens, self.input, self.extensions, &mut self.context)
    }

    /// Records an error.
    pub fn error(&mut self, error: ParserError)
        ensures
            final(self).same_line(old(self)),
            final(self).pos_spec() == old(self).pos_spec(),
            final(self).errors_spec() == old(self).errors_spec().push(error),
            final(self).warnings_spec() == old(self).warnings_spec(),
    {
        self.context.error(error);
    }

    /// Records a warning.
    pub fn warn(&mut self, warning: ParserWarning)
        ensures
            final(self).same_line(old(self)),
            final(self).pos_spec() == old(self).pos_spec(),
            final(self).warnings_spec() == old(self).warnings_spec().push(warning),
            final(self).errors_spec() == old(self).errors_spec(),
    {
        self.context.warn(warning);
    }

    /// The source text of `token`.
    pub fn as_str(&self, token: Token) -> (s: &'input str)
        requires
            self.wf(),
            token_ok(self.input_spec()@, token),
        ensures
            s@ == chars_between(self.input_spec()@, token.span.start_spec() as int, token.span.end_spec() as int),
    {
        let ghost cs = self.input_spec()@;
        let ghost a = char_index(cs, token.span.start_spec() as int);
        let ghost b = char_index(cs, token.span.end_spec() as int);
        proof {
            if b < a {
                lemma_byte_pos_mono(cs, b, a);
            }
        }
        str_slice(self.input, token.span.start(), token.span.end(), Ghost(a), Ghost(b))
    }

    /// The input between the character positions `start` and `end`.
    fn slice_bytes(&self, start: usize, end: usize) -> (s: &'input str)
        requires
            byte_len(self.input_spec()@) <= usize::MAX,
            start <= end,
            is_char_pos(self.input_spec()@, start as int),
            is_char_pos(self.input_spec()@, end as int),
        ensures
            s@ == chars_between(self.input_spec()@, start as int, end as int),
            byte_len(s@) == end - start,
            start < end <==> s@.len() > 0,
    {
        proof {
            lemma_between(self.input_spec()@, start as int, end as int);
        }
        let ghost cs = self.input_spec()@;
        str_slice(self.input, start, end, Ghost(char_index(cs, start as int)), Ghost(char_index(cs, end as int)))
    }

    /// The text that `tokens` make at `offset`.
    pub fn text(&self, offset: usize, tokens: &[Token]) -> (t: Text<'input>)
        requires
            self.wf(),
            tokens_ok(self.input_spec()@, tokens@),
            tokens@.len() > 0 ==> offset == tokens@[0].span.start_spec(),
        ensures
            text_of(t, self.input_spec()@, offset as int, tokens@),
            t.chars_spec() == tokens_text(self.input_spec()@, tokens@),
            t.offset_spec() == offset,
    {
        let ghost cs = self.input_spec()@;
        let ghost ts = tokens@;
        let mut t = Text::empty(offset);
        if tokens.len() == 0 {
            proof {
                lemma_text_is_chars(t, cs, offset as int, token_text_ranges(ts));
            }
            return t;
        }
        let mut start = tokens[0].span.start();
        let mut end = start;
        let ghost s0 = start as int;
        let ghost mut emitted: Seq<(int, int)> = Seq::empty();
        let mut i: usize = 0;
        proof {
            assert(token_ok(cs, ts[0]));
            assert(emitted + text_ranges(ts, 0, s0, s0) =~= text_ranges(ts, 0, s0, s0));
        }
        while i < tokens.len()
            invariant
                0 <= i <= ts.len(),
                ts == tokens@,
                cs == self.input_spec()@,
                byte_len(cs) <= usize::MAX,
                tokens_ok(cs, ts),
                s0 == ts[0].span.start_spec(),
                offset == s0,
                start <= end,
                is_char_pos(cs, start as int),
                is_char_pos(cs, end as int),
                i < ts.len() ==> end == ts[i as int].span.start_spec(),
                t.span_spec().1 <= start,
                emitted + text_ranges(ts, i as int, start as int, end as int) == text_ranges(ts, 0, s0, s0),
                text_is(t, cs, offset as int, emitted),
            decreases ts.len() - i,
        {
            let token = tokens[i];
            let ghost rest = text_ranges(ts, i as int + 1, 0, 0);
            proof {
                assert(token_ok(cs, ts[i as int]));
                if i + 1 < ts.len() {
                    assert(ts[i as int].span.end_spec() == ts[i + 1].span.start_spec());
                }
            }
            if token.kind == TokenKind::LineComment || token.kind == TokenKind::BlockComment {
                self.append_piece(&mut t, start, end, Ghost(emitted));
                proof {
                    let e = token.span.end_spec() as int;
                    assert(emitted + piece(start as int, end as int) + text_ranges(ts, i + 1, e, e)
                        =~= emitted + (piece(start as int, end as int) + text_ranges(ts, i + 1, e, e)));
                    emitted = emitted + piece(start as int, end as int);
                }
                start = token.span.end();
                end = start;
            } else if token.kind == TokenKind::Escaped {
                let ts_start = token.span.start();
                self.append_piece(&mut t, start, ts_start, Ghost(emitted));
                proof {
                    lemma_escape_width(cs, token);
                    let a = ts_start as int + 1;
                    let e = token.span.end_spec() as int;
                    assert(emitted + piece(start as int, ts_start as int) + text_ranges(ts, i + 1, a, e)
                        =~= emitted + (piece(start as int, ts_start as int) + text_ranges(ts, i + 1, a, e)));
                    emitted = emitted + piece(start as int, ts_start as int);
                }
                start = ts_start + 1;
                end = token.span.end();
            } else {
                end = token.span.end();
            }
            i = i + 1;
        }
        self.append_piece(&mut t, start, end, Ghost(emitted));
        proof {
            assert(emitted + piece(start as int, end as int) =~= text_ranges(ts, 0, s0, s0));
            lemma_text_is_chars(t, cs, offset as int, token_text_ranges(ts));
        }
        t
    }

    /// Appends the text between `start` and `end` to `t`, when it is not
    /// empty.
    fn append_piece(&self, t: &mut Text<'input>, start: usize, end: usize, Ghost(emitted): Ghost<Seq<(int, int)>>)
        requires
            byte_len(self.input_spec()@) <= usize::MAX,
            start <= end,
            is_char_pos(self.input_spec()@, start as int),
            is_char_pos(self.input_spec()@, end as int),
            old(t).span_spec().1 <= start,
            text_is(*old(t), self.input_spec()@, old(t).offset_spec() as int, emitted),
        ensures
            final(t).offset_spec() == old(t).offset_spec(),
            final(t).span_spec().1 <= end,
            text_is(*final(t), self.input_spec()@, old(t).offset_spec() as int, emitted + piece(start as int, end as int)),
    {
        let s = self.slice_bytes(start, end);
        proof {
            lemma_between(self.input_spec()@, start as int, end as int);
        }
        let ghost old_t = *t;
        t.append_str(s);
        proof {
            if start < end {
                lemma_text_is_push(old_t, *t, self.input_spec()@, emitted, start as int, end as int);
            } else {
                assert(emitted + piece(start as int, end as int) =~= emitted);
            }
        }
    }
}

/// The range `start..end` when it is not empty.
pub open spec fn piece(start: int, end: int) -> Seq<(int, int)> {
    if start < end { seq![(start, end)] } else { seq![] }
}

/// Between two character positions lie whole characters, as many bytes of
/// them as the positions differ.
proof fn lemma_between(cs: Seq<char>, s: int, e: int)
    requires
        is_char_pos(cs, s),
        is_char_pos(cs, e),
        s <= e,
    ensures
        0 <= char_index(cs, s) <= char_index(cs, e) <= cs.len(),
        byte_pos(cs, char_index(cs, s)) == s,
        byte_pos(cs, char_index(cs, e)) == e,
        byte_len(chars_between(cs, s, e)) == e - s,
        s < e <==> chars_between(cs, s, e).len() > 0,
        e <= byte_len(cs),
{
    let a = char_index(cs, s);
    let b = char_index(cs, e);
    if b < a {
        lemma_byte_pos_mono(cs, b, a);
    }
    lemma_byte_pos_mono(cs, a, b);
    lemma_byte_pos_mono(cs, b, cs.len() as int);
    assert(cs.take(cs.len() as int) =~= cs);
}

/// A text that gains one fragment with the characters of `start..end`
/// gains that range.
proof fn lemma_text_is_push(t0: Text, t1: Text, cs: Seq<char>, emitted: Seq<(int, int)>, start: int, end: int)
    requires
        text_is(t0, cs, t0.offset_spec() as int, emitted),
        t1.wf(),
        t1.offset_spec() == t0.offset_spec(),
        t1.fragments_spec() == t0.fragments_spec().push(t1.fragments_spec().last()),
        t1.fragments_spec().last().chars_spec() == chars_between(cs, start, end),
        start < end,
    ensures
        text_is(t1, cs, t0.offset_spec() as int, emitted + piece(start, end)),
{
    let np = emitted + piece(start, end);
    assert(np =~= emitted.push((start, end)));
    assert forall|k: int| 0 <= k < np.len() implies (#[trigger] t1.fragments_spec()[k]).chars_spec() == chars_between(cs, np[k].0, np[k].1) by {
        if k < emitted.len() {
            assert(t1.fragments_spec()[k] == t0.fragments_spec()[k]);
        }
    }
}

/// Where the physical line that starts at token `c` ends: at the first
/// newline from `c` on, or at the end.
pub open spec fn line_end(ts: Seq<Token>, c: int) -> int {
    first_in(ts, c, KindClass::Is(TokenKind::Newline))
}

/// Where the physical line after the one at `c` starts.
pub open spec fn next_line_start(ts: Seq<Token>, c: int) -> int {
    let j = line_end(ts, c);
    if j < ts.len() {
        j + 1
    } else {
        ts.len() as int
    }
}

/// Reads a recipe line by line.
pub struct Parser<'input> {
    input: &'input str,
    tokens: TokenStream,
    line: Vec<Token>,
    offset: usize,
    context: Context<ParserError, ParserWarning>,
    extensions: Extensions,
}

impl<'input> Parser<'input> {
    /// The input.
    pub closed spec fn input_spec(&self) -> &'input str {
        self.input
    }

    /// How many tokens of the input have been read.
    pub closed spec fn count_spec(&self) -> int {
        self.tokens.count_spec()
    }

    /// The tokens of the current line.
    pub closed spec fn line_spec(&self) -> Seq<Token> {
        self.line@
    }

    /// The extensions in force.
    pub closed spec fn extensions_spec(&self) -> Extensions {
        self.extensions
    }

    /// The errors collected from finished lines.
    pub closed spec fn errors_spec(&self) -> Seq<ParserError> {
        self.context.errors@
    }

    /// The warnings collected from finished lines.
    pub closed spec fn warnings_spec(&self) -> Seq<ParserWarning> {
        self.context.warnings@
    }

    /// The reader's invariant: the stream reads the input, which fits in
    /// the lengths of tokens, and the offset is where the read tokens end.
    pub closed spec fn wf(&self) -> bool {
        let cs = self.input@;
        let all = input_tokens(cs);
        let c = self.tokens.count_spec();
        &&& self.tokens.wf()
        &&& self.tokens.chars_spec() == cs
        &&& byte_len(cs) <= u32::MAX
        &&& 0 <= c <= all.len()
        &&& self.offset == offset_in(all, 0, c)
    }

    /// A reader at the start of `input`.
    pub fn new(input: &'input str, extensions: Extensions) -> (p: Self)
        requires
            byte_len(input@) <= u32::MAX,
        ensures
            p.wf(),
            p.input_spec() == input,
            p.extensions_spec() == extensions,
            p.count_spec() == 0,
            p.errors_spec().len() == 0,
            p.warnings_spec().len() == 0,
    {
        Self {
            input,
            tokens: TokenStream::new(input),
            line: Vec::new(),
            offset: 0,
            context: Context::new(),
            extensions,
        }
    }

    /// The tokens of the current line.
    pub fn line(&self) -> (r: &[Token])
        ensures
            r@ == self.line_spec(),
    {
        self.line.as_slice()
    }

    /// Reads the next line: its tokens, without the newline, become the
    /// current line, and the byte offset where it starts is returned.
    /// `None` once the input is read.
    pub fn next_line(&mut self) -> (r: Option<usize>)
        requires
            old(self).wf(),
        ensures
            final(self).wf(),
            final(self).input_spec() == old(self).input_spec(),
            final(self).extensions_spec() == old(self).extensions_spec(),
            final(self).errors_spec() == old(self).errors_spec(),
            final(self).warnings_spec() == old(self).warnings_spec(),
            ({
                let all = input_tokens(old(self).input_spec()@);
                let c = old(self).count_spec();
                &&& c >= all.len() ==> r is None && final(self).count_spec() == c
                &&& c < all.len() ==> {
                    &&& r == Some(offset_in(all, 0, c) as usize)
                    &&& final(self).line_spec() == all.subrange(c, line_end(all, c))
                    &&& final(self).count_spec() == next_line_start(all, c)
                }
            }),
    {
        let ghost cs = self.input@;
        let ghost all = input_tokens(cs);
        let ghost c0 = self.tokens.count_spec();
        proof {
            lemma_input_tokens_ok(cs);
            lemma_first_in(all, c0, KindClass::Is(TokenKind::Newline));
        }
        self.line.clear();
        let parsed = self.offset;
        let mut has_terminator = false;
        let ghost in0 = self.input;
        let ghost ext0 = self.extensions;
        let ghost e0 = self.context.errors@;
        let ghost w0 = self.context.warnings@;
        proof {
            assert(self.line@ =~= all.subrange(c0, c0));
        }
        loop
            invariant_except_break
                self.input == in0,
                self.extensions == ext0,
                self.context.errors@ == e0,
                self.context.warnings@ == w0,
                self.wf(),
                self.input@ == cs,
                all == input_tokens(cs),
                tokens_ok(cs, all),
                all.len() > 0 ==> all[0].span.start_spec() == 0,
                0 <= c0 <= self.tokens.count_spec() <= all.len(),
                self.line@ == all.subrange(c0, self.tokens.count_spec()),
                line_end(all, c0) == line_end(all, self.tokens.count_spec()),
                parsed == offset_in(all, 0, c0),
                !has_terminator,
            ensures
                self.input == in0,
                self.extensions == ext0,
                self.context.errors@ == e0,
                self.context.warnings@ == w0,
                self.wf(),
                self.input@ == cs,
                c0 <= self.tokens.count_spec() <= all.len(),
                has_terminator ==> {
                    &&& line_end(all, c0) < all.len()
                    &&& self.tokens.count_spec() == line_end(all, c0) + 1
                    &&& self.line@ == all.subrange(c0, line_end(all, c0))
                },
                !has_terminator ==> {
                    &&& line_end(all, c0) == all.len()
                    &&& self.tokens.count_spec() == all.len()
                    &&& self.line@ == all.subrange(c0, all.len() as int)
                },
            decreases all.len() - self.tokens.count_spec(),
        {
            let ghost k = self.tokens.count_spec();
            match self.tokens.next() {
                Some(token) => {
                    proof {
                        assert(token == all[k]);
                        assert(token_ok(cs, all[k]));
                        if k > 0 {
                            assert(all[k - 1].span.end_spec() == all[k].span.start_spec());
                        }
                        let a = char_index(cs, all[k].span.start_spec() as int);
                        lemma_between(cs, all[k].span.start_spec() as int, all[k].span.end_spec() as int);
                    }
                    self.offset = self.offset + token.len();
                    if token.kind == TokenKind::Newline {
                        has_terminator = true;
                        break;
                    }
                    let ghost line0 = self.line@;
                    self.line.push(token);
                    proof {
                        assert(line0 == all.subrange(c0, k));
                        assert(self.line@ == line0.push(all[k]));
                        assert(self.line@ =~= all.subrange(c0, k + 1));
                    }
                },
                None => {
                    break;
                },
            }
        }
        if self.line.len() == 0 && !has_terminator {
            None
        } else {
            Some(parsed)
        }
    }
}

/// What a line of the abstract syntax tree is.
#[derive(Debug, Clone, Copy, PartialEq, Eq, Structural)]
pub enum LineKind {
    Metadata,
    Section,
    Step,
}

/// The kind of a line of the tree.
pub open spec fn kind_of(l: Line) -> LineKind {
    match l {
        Line::Metadata { .. } => LineKind::Metadata,
        Line::Section { .. } => LineKind::Section,
        Line::Step { .. } => LineKind::Step,
    }
}

/// Every token of `l` is white space or a comment.
pub open spec fn is_blank_line(l: Seq<Token>) -> bool {
    forall|k: int| 0 <= k < l.len() ==> in_class(#[trigger] l[k].kind, KindClass::Blank)
}

/// What the tokens `l` of a line that is not blank make: metadata when it
/// starts with `>>` and has a `:`, a section when it is `=`s around a name,
/// else a step.
pub open spec fn line_kind(l: Seq<Token>) -> LineKind {
    if l.len() > 0 && l[0].kind == TokenKind::MetadataStart && first_in(l, 1, KindClass::Is(TokenKind::Colon)) < l.len() {
        LineKind::Metadata
    } else if l.len() > 0 && l[0].kind == TokenKind::Eq && section_bounds(l, 0).2 == l.len() {
        LineKind::Section
    } else {
        LineKind::Step
    }
}

/// The lines of the tree that the tokens `ts` from `c` on add: the kind of
/// each, and where the line of tokens that starts it starts. Blank lines
/// add none; with multi-line steps, a step right after a step continues
/// it; `last_empty` tells whether a blank line came last, `last` the kind
/// of the last line of the tree.
pub open spec fn lines_from(ts: Seq<Token>, c: int, multiline: bool, last_empty: bool, last: Option<LineKind>) -> Seq<
    (LineKind, int),
>
    decreases ts.len() - c,
{
    if c < 0 || c >= ts.len() {
        seq![]
    } else {
        let l = ts.subrange(c, line_end(ts, c));
        let next = next_line_start(ts, c);
        proof {
            lemma_first_in(ts, c, KindClass::Is(TokenKind::Newline));
        }
        if is_blank_line(l) {
            lines_from(ts, next, multiline, true, last)
        } else {
            let k = line_kind(l);
            if k == LineKind::Step && !last_empty && multiline && last == Some(LineKind::Step) {
                lines_from(ts, next, multiline, false, last)
            } else {
                seq![(k, c)] + lines_from(ts, next, multiline, false, Some(k))
            }
        }
    }
}

/// The lines of the tree of `cs` with the extensions `ext`: the kind of
/// each and the index of the token that starts it.
pub open spec fn recipe_lines(cs: Seq<char>, ext: Extensions) -> Seq<(LineKind, int)> {
    lines_from(input_tokens(cs), 0, ext.has_bit(1), true, None)
}

/// The kinds of the lines of the tree of `cs` with the extensions `ext`.
pub open spec fn recipe_kinds(cs: Seq<char>, ext: Extensions) -> Seq<LineKind> {
    recipe_lines(cs, ext).map_values(|p: (LineKind, int)| p.0)
}

/// The kinds of the lines of a tree.
pub open spec fn kinds_of(lines: Seq<Line>) -> Seq<LineKind> {
    lines.map_values(|l: Line| kind_of(l))
}

/// The kinds of the lines of a tree, with where each starts.
pub open spec fn shape_of(lines: Seq<Line>, starts: Seq<int>) -> Seq<(LineKind, int)> {
    Seq::new(lines.len(), |i: int| (kind_of(lines[i]), starts[i]))
}

/// `line` is what the tokens `l` of `cs`, which start at `base`, hold:
/// the texts of the key and value of metadata, the name of a section, and
/// whether a step is a text step.
pub open spec fn line_holds(cs: Seq<char>, l: Seq<Token>, base: int, line: Line) -> bool {
    match line {
        Line::Metadata { key, value } => {
            let k = first_in(l, 1, KindClass::Is(TokenKind::Colon));
            &&& text_of(key, cs, offset_in(l, base, 1), l.subrange(1, k))
            &&& text_of(value, cs, offset_in(l, base, k + 1), l.subrange(k + 1, l.len() as int))
        },
        Line::Section { name } => {
            let (i2, i3, _) = section_bounds(l, 0);
            match name {
                Some(t) => text_of(t, cs, offset_in(l, base, i2), l.subrange(i2, i3)) && !crate::ast::is_blank(
                    t.chars_spec(),
                ),
                None => crate::ast::is_blank(tokens_text(cs, l.subrange(i2, i3))),
            }
        },
        Line::Step { is_text, .. } => is_text == (l.len() > 0 && l[0].kind == TokenKind::TextStep),
    }
}

/// Whether, with multi-line steps, the step line of tokens at `c` goes on
/// in the next line of tokens: one that is not blank and is a step.
pub open spec fn continued(ts: Seq<Token>, c: int, multiline: bool) -> bool {
    let n = next_line_start(ts, c);
    &&& multiline
    &&& n < ts.len()
    &&& !is_blank_line(line_at(ts, n))
    &&& line_kind(line_at(ts, n)) == LineKind::Step
}

/// The items of a step of the tree that starts at the line of tokens `c`
/// and does not go on in the next: a text step holds one item, the text
/// after its `>`; another step holds items that come, one by one, from
/// consecutive runs of the tokens of its line, from its first to its last.
pub open spec fn step_items_hold(cs: Seq<char>, ts: Seq<Token>, c: int, ext: Extensions, line: Line) -> bool {
    let multiline = ext.has_bit(1);
    match line {
        Line::Step { is_text, items } => !continued(ts, c, multiline) ==> {
            let l = line_at(ts, c);
            let base = offset_in(ts, 0, c);
            if is_text {
                items@.len() == 1 && item_in(cs, l, base, ext, 1, l.len() as int, items@[0])
            } else {
                exists|bounds: Seq<int>|
                    #![trigger items_tile_in(cs, l, base, ext, items@, bounds)]
                    items_tile_in(cs, l, base, ext, items@, bounds) && bounds[0] == 0 && bounds.last() == l.len()
            }
        },
        _ => true,
    }
}

/// A step parsed from the line of tokens at `c`, from its start, holds its
/// items as [step_items_hold] says.
proof fn lemma_step_items_hold<'input>(
    cs: Seq<char>,
    all: Seq<Token>,
    c: int,
    ext: Extensions,
    lp: LineParser,
    is_text: bool,
    items: Vec<crate::ast::Item<'input>>,
)
    requires
        lp.tokens_spec() == line_at(all, c),
        lp.base_offset_spec() == offset_in(all, 0, c),
        lp.input_spec()@ == cs,
        lp.pos_spec() == 0,
        lp.extensions_spec() == ext,
        is_text ==> items@.len() == 1 && crate::parser::step::item_from(
            lp,
            lp.pos_spec() + 1,
            lp.tokens_spec().len() as int,
            items@[0],
        ),
        !is_text ==> exists|bounds: Seq<int>|
            #![trigger items_tile(lp, items@, bounds)]
            items_tile(lp, items@, bounds) && bounds[0] == lp.pos_spec() && bounds.last() == lp.tokens_spec().len(),
    ensures
        step_items_hold(cs, all, c, ext, Line::Step { is_text, items }),
{
    let l = line_at(all, c);
    let base = offset_in(all, 0, c);
    let line = Line::Step { is_text, items };
    if !is_text {
        let bounds = choose|bounds: Seq<int>|
            #![trigger items_tile(lp, items@, bounds)]
            items_tile(lp, items@, bounds) && bounds[0] == lp.pos_spec() && bounds.last() == lp.tokens_spec().len();
        assert(items_tile_in(cs, l, base, ext, items@, bounds));
        assert(bounds[0] == 0);
        assert(bounds.last() == l.len());
        assert(line->Step_items@ == items@);
        assert(items_tile_in(cs, l, base, ext, line->Step_items@, bounds));
        assert(exists|b: Seq<int>|
            #![trigger items_tile_in(cs, l, base, ext, line->Step_items@, b)]
            items_tile_in(cs, l, base, ext, line->Step_items@, b) && b[0] == 0 && b.last() == l.len());
    } else {
        assert(item_in(cs, l, base, ext, 1, l.len() as int, items@[0]));
    }
}

/// The tokens of the line that starts at token `c`.
pub open spec fn line_at(ts: Seq<Token>, c: int) -> Seq<Token> {
    ts.subrange(c, line_end(ts, c))
}

/// Whether every token is white space or a comment.
fn blank_line(tokens: &[Token]) -> (r: bool)
    ensures
        r == is_blank_line(tokens@),
{
    let mut i: usize = 0;
    while i < tokens.len()
        invariant
            0 <= i <= tokens@.len(),
            forall|k: int| 0 <= k < i ==> in_class(#[trigger] tokens@[k].kind, KindClass::Blank),
        decreases tokens@.len() - i,
    {
        if !KindClass::Blank.contains(tokens[i].kind) {
            return false;
        }
        i = i + 1;
    }
    true
}

/// The key of the metadata line `l` is blank.
pub open spec fn meta_key_blank(cs: Seq<char>, l: Seq<Token>) -> bool {
    crate::ast::is_blank(tokens_text(cs, l.subrange(1, first_in(l, 1, KindClass::Is(TokenKind::Colon)))))
}

/// The value of the metadata line `l` is blank.
pub open spec fn meta_value_blank(cs: Seq<char>, l: Seq<Token>) -> bool {
    crate::ast::is_blank(
        tokens_text(cs, l.subrange(first_in(l, 1, KindClass::Is(TokenKind::Colon)) + 1, l.len() as int)),
    )
}

/// How many errors the lines `rl` of metadata give: one for each blank
/// key.
pub open spec fn meta_errors(cs: Seq<char>, all: Seq<Token>, rl: Seq<(LineKind, int)>) -> nat
    decreases rl.len(),
{
    if rl.len() == 0 {
        0
    } else {
        meta_errors(cs, all, rl.drop_last()) + if rl.last().0 == LineKind::Metadata && meta_key_blank(
            cs,
            line_at(all, rl.last().1),
        ) {
            1nat
        } else {
            0nat
        }
    }
}

/// How many warnings the lines `rl` of metadata give: one for each blank
/// value of a key that is not blank.
pub open spec fn meta_warnings(cs: Seq<char>, all: Seq<Token>, rl: Seq<(LineKind, int)>) -> nat
    decreases rl.len(),
{
    if rl.len() == 0 {
        0
    } else {
        meta_warnings(cs, all, rl.drop_last()) + if rl.last().0 == LineKind::Metadata && !meta_key_blank(
            cs,
            line_at(all, rl.last().1),
        ) && meta_value_blank(cs, line_at(all, rl.last().1)) {
            1nat
        } else {
            0nat
        }
    }
}

/// Parses the line `line` as metadata or a section when it looks like one;
/// parses nothing and gives `None` when that fails.
fn meta_or_section<'t, 'input>(line: &mut LineParser<'t, 'input>) -> (r: Option<Line<'input>>)
    requires
        old(line).wf(),
        old(line).pos_spec() == 0,
    ensures
        final(line).wf(),
        final(line).same_line(old(line)),
        old(line).errors_spec().is_prefix_of(final(line).errors_spec()),
        old(line).warnings_spec().is_prefix_of(final(line).warnings_spec()),
        ({
            let ts = old(line).tokens_spec();
            &&& line_kind(ts) == LineKind::Step ==> r is None && final(line).pos_spec() == 0
            &&& line_kind(ts) != LineKind::Step ==> (r matches Some(l) && kind_of(l) == line_kind(ts) && line_holds(
                old(line).input_spec()@,
                ts,
                old(line).base_offset_spec(),
                l,
            )) && final(line).pos_spec() == ts.len()
            &&& line_kind(ts) == LineKind::Section ==> final(line).errors_spec() == old(line).errors_spec()
                && final(line).warnings_spec() == old(line).warnings_spec()
            &&& line_kind(ts) == LineKind::Metadata ==> {
                let cs = old(line).input_spec()@;
                &&& final(line).errors_spec().len() == old(line).errors_spec().len() + if meta_key_blank(cs, ts) {
                    1int
                } else {
                    0
                }
                &&& final(line).warnings_spec().len() == old(line).warnings_spec().len() + if !meta_key_blank(cs, ts)
                    && meta_value_blank(cs, ts) {
                    1int
                } else {
                    0
                }
            }
        }),
{
    let ghost ts = line.tokens_spec();
    proof {
        crate::parser::quantity::lemma_prefix_concat(line.errors_spec(), seq![]);
        crate::parser::quantity::lemma_prefix_concat(line.warnings_spec(), seq![]);
    }
    let k = line.peek();
    proof {
        if ts.len() > 0 {
            lemma_first_in(ts, 1, KindClass::Is(TokenKind::Colon));
        }
    }
    if k == TokenKind::MetadataStart {
        match metadata_entry(line) {
            Ok(entry) => {
                proof {
                    crate::parser::quantity::lemma_prefix_same_or_push(old(line).errors_spec(), line.errors_spec());
                    crate::parser::quantity::lemma_prefix_same_or_push(old(line).warnings_spec(), line.warnings_spec());
                }
                return Some(Line::Metadata { key: entry.key, value: entry.value });
            },
            Err(_) => {
                line.rewind(0);
                return None;
            },
        }
    } else if k == TokenKind::Eq {
        match section(line) {
            Ok(name) => {
                return Some(Line::Section { name });
            },
            Err(_) => {
                line.rewind(0);
                return None;
            },
        }
    }
    None
}

/// A text of white space, comments and line breaks makes no line.
pub proof fn lemma_blank_lines(ts: Seq<Token>, c: int, multiline: bool, last_empty: bool, last: Option<LineKind>)
    requires
        forall|j: int| 0 <= j < ts.len() ==> in_class(#[trigger] ts[j].kind, KindClass::Blank) || ts[j].kind
            == TokenKind::Newline,
    ensures
        lines_from(ts, c, multiline, last_empty, last).len() == 0,
    decreases ts.len() - c,
{
    if 0 <= c < ts.len() {
        lemma_first_in(ts, c, KindClass::Is(TokenKind::Newline));
        let l = ts.subrange(c, line_end(ts, c));
        assert forall|k: int| 0 <= k < l.len() implies in_class(#[trigger] l[k].kind, KindClass::Blank) by {
            assert(l[k] == ts[c + k]);
            assert(!in_class(ts[c + k].kind, KindClass::Is(TokenKind::Newline)));
        }
        lemma_blank_lines(ts, next_line_start(ts, c), multiline, true, last);
    }
}

/// Whether every token of the text is white space, a comment or a line
/// break.
pub open spec fn blank_text(cs: Seq<char>) -> bool {
    forall|j: int|
        0 <= j < input_tokens(cs).len() ==> in_class(#[trigger] input_tokens(cs)[j].kind, KindClass::Blank)
            || input_tokens(cs)[j].kind == TokenKind::Newline
}

/// What the line parser gives for `input` read with `extensions`: a syntax
/// tree whose lines are those of the recipe, of their kinds and holding
/// what their text holds; no errors or warnings when the recipe has no
/// lines; for a recipe without steps, as many errors as metadata lines
/// with a blank key and as many warnings as those with a blank value; and
/// for blank text, no lines, errors or warnings.
pub open spec fn parse_result(input: Seq<char>, extensions: Extensions, r: PassResult<Ast, ParserError, ParserWarning>) -> bool {
    &&& r.output_spec() matches Some(ast) && {
        let rl = recipe_lines(input, extensions);
        let all = input_tokens(input);
        &&& kinds_of(ast.lines@) == recipe_kinds(input, extensions)
        &&& ast.lines@.len() == rl.len()
        &&& forall|i: int|
            0 <= i < rl.len() ==> line_holds(
                input,
                line_at(all, rl[i].1),
                offset_in(all, 0, rl[i].1),
                #[trigger] ast.lines@[i],
            )
        &&& forall|i: int|
            0 <= i < rl.len() ==> step_items_hold(input, all, rl[i].1, extensions, #[trigger] ast.lines@[i])
    }
    &&& recipe_lines(input, extensions).len() == 0 ==> r.errors_spec().len() == 0 && r.warnings_spec().len() == 0
    &&& (forall|i: int| 0 <= i < recipe_kinds(input, extensions).len() ==> #[trigger] recipe_kinds(input, extensions)[i]
        != LineKind::Step) ==> r.errors_spec().len() == meta_errors(
        input,
        input_tokens(input),
        recipe_lines(input, extensions),
    ) && r.warnings_spec().len() == meta_warnings(input, input_tokens(input), recipe_lines(input, extensions))
    &&& blank_text(input) ==> (r.output_spec() matches Some(ast) && ast.lines@.len() == 0) && r.errors_spec().len()
        == 0 && r.warnings_spec().len() == 0
}

/// Parses a recipe. Every line that is not blank becomes a line of the
/// tree: metadata, a section, or a step; with multi-line steps a step that
/// follows a step, with no blank line between, continues it.
#[verifier::rlimit(60)]
#[verifier::spinoff_prover]
pub fn parse<'input>(input: &'input str, extensions: Extensions) -> (r: PassResult<Ast<'input>, ParserError, ParserWarning>)
    requires
        byte_len(input@) <= u32::MAX,
    ensures
        parse_result(input@, extensions, r),
{
    proof {
        if blank_text(input@) {
            lemma_blank_lines(input_tokens(input@), 0, extensions.has_bit(1), true, None);
        }
    }
    let ghost cs = input@;
    let ghost all = input_tokens(cs);
    let ghost ml = extensions.has_bit(1);
    let multiline = extensions.contains(Extensions::multiline_steps());
    let mut parser = Parser::new(input, extensions);
    let mut last_line_is_empty = true;
    let mut lines: Vec<Line<'input>> = Vec::new();
    let ghost mut starts: Seq<int> = Seq::empty();
    proof {
        lemma_input_tokens_ok(cs);
        assert(shape_of(lines@, starts) =~= Seq::<(LineKind, int)>::empty());
        assert(shape_of(lines@, starts) + lines_from(all, 0, ml, true, None) =~= lines_from(all, 0, ml, true, None));
    }
    loop
        invariant
            parser.wf(),
            parser.input_spec() == input,
            parser.extensions_spec() == extensions,
            cs == input@,
            all == input_tokens(cs),
            tokens_ok(cs, all),
            all.len() > 0 ==> all[0].span.start_spec() == 0,
            multiline == ml,
            ml == extensions.has_bit(1),
            starts.len() == lines@.len(),
            shape_of(lines@, starts) + lines_from(
                all,
                parser.count_spec(),
                ml,
                last_line_is_empty,
                if lines@.len() > 0 { Some(kind_of(lines@.last())) } else { None },
            ) == lines_from(all, 0, ml, true, None),
            forall|i: int|
                0 <= i < lines@.len() ==> line_holds(cs, line_at(all, starts[i]), offset_in(all, 0, starts[i]), #[trigger] lines@[i]),
            !last_line_is_empty ==> lines@.len() > 0,
            forall|i: int| 0 <= i < lines@.len() ==> step_items_hold(cs, all, starts[i], extensions, #[trigger] lines@[i]),
            (!last_line_is_empty && kind_of(lines@.last()) == LineKind::Step) ==> (continued(all, starts.last(), ml)
                || next_line_start(all, starts.last()) == parser.count_spec()),
            lines@.len() == 0 ==> parser.errors_spec().len() == 0 && parser.warnings_spec().len() == 0,
            (forall|i: int| 0 <= i < lines@.len() ==> kind_of(#[trigger] lines@[i]) != LineKind::Step)
                ==> parser.errors_spec().len() == meta_errors(cs, all, shape_of(lines@, starts))
                && parser.warnings_spec().len() == meta_warnings(cs, all, shape_of(lines@, starts)),
        ensures
            lines@.len() == 0 ==> parser.errors_spec().len() == 0 && parser.warnings_spec().len() == 0,
            (forall|i: int| 0 <= i < lines@.len() ==> kind_of(#[trigger] lines@[i]) != LineKind::Step)
                ==> parser.errors_spec().len() == meta_errors(cs, all, shape_of(lines@, starts))
                && parser.warnings_spec().len() == meta_warnings(cs, all, shape_of(lines@, starts)),
            starts.len() == lines@.len(),
            shape_of(lines@, starts) == lines_from(all, 0, ml, true, None),
            forall|i: int|
                0 <= i < lines@.len() ==> line_holds(cs, line_at(all, starts[i]), offset_in(all, 0, starts[i]), #[trigger] lines@[i]),
            forall|i: int| 0 <= i < lines@.len() ==> step_items_hold(cs, all, starts[i], extensions, #[trigger] lines@[i]),
        decreases all.len() - parser.count_spec(),
    {
        let ghost c = parser.count_spec();
        proof {
            lemma_first_in(all, c, KindClass::Is(TokenKind::Newline));
        }
        let offset = match parser.next_line() {
            Some(o) => o,
            None => {
                proof {
                    assert(shape_of(lines@, starts) =~= lines_from(all, 0, ml, true, None));
                }
                break;
            },
        };
        proof {
            lemma_tokens_ok_subrange(cs, all, c, line_end(all, c));
            if c > 0 && c < line_end(all, c) {
                assert(all[c - 1].span.end_spec() == all[c].span.start_spec());
            }
        }
        let mut line = LineParser::new(offset, parser.line(), input, extensions);
        if blank_line(line.tokens()) {
            last_line_is_empty = true;
            continue;
        }
        let ms = meta_or_section(&mut line);
        let ast_line = match ms {
            Some(l) => l,
            None => {
                let mut merged = false;
                if !last_line_is_empty && multiline {
                    let ghost before = lines@;
                    match lines.pop() {
                        Some(Line::Step { items, is_text }) => {
                            let mut items = items;
                            let mut parsed_step = step(&mut line, is_text);
                            items.append(&mut parsed_step.items);
                            lines.push(Line::Step { items, is_text });
                            merged = true;
                            proof {
                                assert(line_at(all, c) == parser.line_spec());
                                assert(continued(all, starts.last(), ml));
                                assert forall|i: int| 0 <= i < lines@.len() implies step_items_hold(
                                    cs,
                                    all,
                                    starts[i],
                                    extensions,
                                    #[trigger] lines@[i],
                                ) by {
                                    if i < lines@.len() - 1 {
                                        assert(lines@[i] == before[i]);
                                    }
                                }
                                assert(shape_of(lines@, starts) =~= shape_of(before, starts));
                                assert forall|i: int| 0 <= i < lines@.len() implies line_holds(
                                    cs,
                                    line_at(all, starts[i]),
                                    offset_in(all, 0, starts[i]),
                                    #[trigger] lines@[i],
                                ) by {
                                    if i < lines@.len() - 1 {
                                        assert(lines@[i] == before[i]);
                                    } else {
                                        assert(line_holds(cs, line_at(all, starts[i]), offset_in(all, 0, starts[i]), before[i]));
                                    }
                                }
                            }
                        },
                        Some(other) => {
                            lines.push(other);
                            proof {
                                assert(lines@ =~= before);
                            }
                        },
                        None => {},
                    }
                }
                if merged {
                    let mut ctx = line.finish();
                    parser.context.append(&mut ctx);
                    continue;
                }
                let ghost lp = line;
                let parsed_step = step(&mut line, false);
                proof {
                    assert(lp.tokens_spec() == line_at(all, c));
                    lemma_step_items_hold(cs, all, c, extensions, lp, parsed_step.is_text, parsed_step.items);
                }
                Line::Step { is_text: parsed_step.is_text, items: parsed_step.items }
            },
        };
        let ghost e_line = line.errors_spec().len();
        let ghost w_line = line.warnings_spec().len();
        let ghost e_before = parser.errors_spec().len();
        let ghost w_before = parser.warnings_spec().len();
        let mut ctx = line.finish();
        parser.context.append(&mut ctx);
        last_line_is_empty = false;
        let ghost before = lines@;
        let ghost before_starts = starts;
        lines.push(ast_line);
        proof {
            if kind_of(ast_line) != LineKind::Step {
                assert(ms is Some);
                assert(line_at(all, c) == parser.line_spec());
            }
            if forall|i: int| 0 <= i < lines@.len() ==> kind_of(#[trigger] lines@[i]) != LineKind::Step {
                assert forall|i: int| 0 <= i < before.len() implies kind_of(#[trigger] before[i]) != LineKind::Step by {
                    assert(lines@[i] == before[i]);
                }
                assert(kind_of(lines@[before.len() as int]) != LineKind::Step);
                assert(shape_of(lines@, starts.push(c)).drop_last() =~= shape_of(before, before_starts));
                assert(shape_of(lines@, starts.push(c)).last() == (kind_of(ast_line), c));
            }
            starts = starts.push(c);
            assert(shape_of(lines@, starts) =~= shape_of(before, before_starts).push((kind_of(ast_line), c)));
            assert forall|i: int| 0 <= i < lines@.len() implies line_holds(
                cs,
                line_at(all, starts[i]),
                offset_in(all, 0, starts[i]),
                #[trigger] lines@[i],
            ) by {
                if i < before.len() {
                    assert(lines@[i] == before[i]);
                    assert(starts[i] == before_starts[i]);
                }
            }
            assert forall|i: int| 0 <= i < lines@.len() implies step_items_hold(cs, all, starts[i], extensions, #[trigger] lines@[i]) by {
                if i < before.len() {
                    assert(lines@[i] == before[i]);
                    assert(starts[i] == before_starts[i]);
                }
            }
        }
    }
    proof {
        let rl = lines_from(all, 0, ml, true, None);
        assert(kinds_of(lines@) =~= rl.map_values(|p: (LineKind, int)| p.0));
        assert forall|i: int| 0 <= i < rl.len() implies starts[i] == rl[i].1 by {
            assert(shape_of(lines@, starts)[i] == rl[i]);
        }
        if forall|i: int| 0 <= i < recipe_kinds(cs, extensions).len() ==> #[trigger] recipe_kinds(cs, extensions)[i]
            != LineKind::Step {
            assert forall|i: int| 0 <= i < lines@.len() implies kind_of(#[trigger] lines@[i]) != LineKind::Step by {
                assert(kinds_of(lines@)[i] == kind_of(lines@[i]));
                assert(recipe_kinds(cs, extensions)[i] != LineKind::Step);
            }
        }
    }
    parser.context.finish(Some(Ast { lines }))
}

/// A run of adjacent tokens ends after it starts.
pub proof fn lemma_run_grows(cs: Seq<char>, ts: Seq<Token>, j: int)
    requires
        tokens_ok(cs, ts),
        0 <= j < ts.len(),
    ensures
        ts[0].span.start_spec() < ts[j].span.end_spec(),
    decreases j,
{
    assert(token_ok(cs, ts[j]));
    if j > 0 {
        lemma_run_grows(cs, ts, j - 1);
        assert(ts[j - 1].span.end_spec() == ts[j].span.start_spec());
    }
}

/// Without comments and escapes, the ranges from `k` on close the pending
/// range at the end of the last token.
proof fn lemma_plain_ranges(ts: Seq<Token>, k: int, start: int, end: int)
    requires
        0 <= k <= ts.len(),
        forall|j: int| k <= j < ts.len() ==> !is_comment(#[trigger] ts[j].kind) && ts[j].kind != TokenKind::Escaped,
    ensures
        text_ranges(ts, k, start, end) == piece(start, if k < ts.len() { ts.last().span.end_spec() as int } else { end }),
    decreases ts.len() - k,
{
    if k < ts.len() {
        lemma_plain_ranges(ts, k + 1, start, ts[k].span.end_spec() as int);
    }
}

/// Tokens without comments and escapes make a text that is exactly the
/// source they cover: one range, from the start of the first token to the
/// end of the last.
pub proof fn lemma_plain_text(cs: Seq<char>, ts: Seq<Token>)
    requires
        tokens_ok(cs, ts),
        ts.len() > 0,
        forall|j: int| 0 <= j < ts.len() ==> !is_comment(#[trigger] ts[j].kind) && ts[j].kind != TokenKind::Escaped,
    ensures
        token_text_ranges(ts) == seq![(ts[0].span.start_spec() as int, ts.last().span.end_spec() as int)],
        tokens_text(cs, ts) == chars_between(cs, ts[0].span.start_spec() as int, ts.last().span.end_spec() as int),
{
    let s = ts[0].span.start_spec() as int;
    lemma_plain_ranges(ts, 0, s, s);
    lemma_run_grows(cs, ts, ts.len() - 1);
    let rs = token_text_ranges(ts);
    assert(rs.drop_last() =~= Seq::<(int, int)>::empty());
    assert(ranges_chars(cs, rs.drop_last()) =~= Seq::<char>::empty());
    assert(ranges_chars(cs, rs) =~= chars_between(cs, s, ts.last().span.end_spec() as int));
}

/// After a backslash, which is one byte, comes a character position.
proof fn lemma_escape_width(cs: Seq<char>, t: Token)
    requires
        token_ok(cs, t),
        t.kind == TokenKind::Escaped,
    ensures
        is_char_pos(cs, t.span.start_spec() + 1),
        t.span.start_spec() + 1 <= t.span.end_spec(),
{
    let a = char_index(cs, t.span.start_spec() as int);
    let b = char_index(cs, t.span.end_spec() as int);
    if b <= a {
        lemma_byte_pos_mono(cs, b, a);
    }
    lemma_byte_pos_next(cs, a);
    lemma_byte_pos_mono(cs, a + 1, b);
    assert(0 <= a + 1 <= cs.len() && byte_pos(cs, a + 1) == t.span.start_spec() + 1);
}

} // verus!
