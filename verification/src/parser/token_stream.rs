//! Tokens with byte spans, as the parser reads them from the lexer.
use vstd::prelude::*;

use crate::encoding::{byte_len, byte_pos, is_char_pos, lemma_byte_pos_mono};
use crate::lexer::{lemma_lex_partition, lemma_scan_bounds, lex, lex_from, scan, Cursor, EOF_CHAR};
pub use crate::lexer::TokenKind;
use crate::span::Span;

verus! {

broadcast use crate::span::Span::lemma_at_ends;

/// A token: its kind and the bytes of input it covers.
#[derive(Debug, Clone, Copy, PartialEq, Eq)]
pub struct Token {
    pub kind: TokenKind,
    pub span: Span,
}

impl Token {
    /// Number of bytes of the token.
    pub fn len(&self) -> (r: usize)
        requires
            self.span.start_spec() <= self.span.end_spec(),
        ensures
            r == self.span.end_spec() - self.span.start_spec(),
    {
        self.span.len()
    }
}

/// The token that covers the characters `r.1..r.2` of `cs`.
pub open spec fn token_at(cs: Seq<char>, r: (TokenKind, int, int)) -> Token {
    Token { kind: r.0, span: Span::at(byte_pos(cs, r.1) as usize, byte_pos(cs, r.2) as usize) }
}

/// The tokens of `cs`, with byte spans.
pub open spec fn input_tokens(cs: Seq<char>) -> Seq<Token> {
    lex(cs).map_values(|r: (TokenKind, int, int)| token_at(cs, r))
}

/// The character index whose byte offset in `cs` is `b`, when there is one.
pub open spec fn char_index(cs: Seq<char>, b: int) -> int {
    choose|k: int| 0 <= k <= cs.len() && byte_pos(cs, k) == b
}

/// The characters of `cs` between the byte offsets `s` and `e`.
pub open spec fn chars_between(cs: Seq<char>, s: int, e: int) -> Seq<char> {
    cs.subrange(char_index(cs, s), char_index(cs, e))
}

/// A token covers a non-empty range of whole characters, is not the end of
/// input, and an escaped token starts with a backslash.
pub open spec fn token_ok(cs: Seq<char>, t: Token) -> bool {
    &&& is_char_pos(cs, t.span.start_spec() as int)
    &&& is_char_pos(cs, t.span.end_spec() as int)
    &&& t.span.start_spec() < t.span.end_spec()
    &&& t.kind != TokenKind::Eof
    &&& t.kind == TokenKind::Escaped ==> cs[char_index(cs, t.span.start_spec() as int)] == '\\'
}

/// Tokens are each well placed in `cs` and follow each other.
pub open spec fn tokens_ok(cs: Seq<char>, ts: Seq<Token>) -> bool {
    &&& forall|k: int| 0 <= k < ts.len() ==> token_ok(cs, #[trigger] ts[k])
    &&& forall|j: int, k: int| 0 <= j && k == j + 1 && k < ts.len() ==> #[trigger] ts[j].span.end_spec() == #[trigger] ts[k].span.start_spec()
}

/// A byte offset names one character position.
pub proof fn lemma_char_index(cs: Seq<char>, k: int)
    requires
        0 <= k <= cs.len(),
    ensures
        char_index(cs, byte_pos(cs, k) as int) == k,
        is_char_pos(cs, byte_pos(cs, k) as int),
{
    let b = byte_pos(cs, k) as int;
    assert(0 <= k <= cs.len() && byte_pos(cs, k) == b);
    let j = char_index(cs, b);
    if j < k {
        lemma_byte_pos_mono(cs, j, k);
    } else if k < j {
        lemma_byte_pos_mono(cs, k, j);
    }
}

/// The tokens of an input are well placed in it.
pub proof fn lemma_input_tokens_ok(cs: Seq<char>)
    requires
        byte_len(cs) <= usize::MAX,
    ensures
        tokens_ok(cs, input_tokens(cs)),
        input_tokens(cs).len() > 0 ==> input_tokens(cs)[0].span.start_spec() == 0,
{
    let ls = lex(cs);
    let ts = input_tokens(cs);
    lemma_lex_partition(cs, 0, EOF_CHAR);
    if ts.len() > 0 {
        assert(ts[0] == token_at(cs, ls[0]));
        assert(cs.take(0) =~= Seq::<char>::empty());
    }
    crate::lexer::lemma_lex_escaped(cs, 0, EOF_CHAR);
    assert forall|k: int| 0 <= k < ts.len() implies token_ok(cs, #[trigger] ts[k]) by {
        let r = ls[k];
        assert(ts[k] == token_at(cs, r));
        assert(0 <= r.1 < r.2 <= cs.len());
        lemma_char_index(cs, r.1);
        lemma_char_index(cs, r.2);
        lemma_byte_pos_mono(cs, r.1, r.2);
        lemma_byte_pos_mono(cs, r.2, cs.len() as int);
        assert(cs.take(cs.len() as int) =~= cs);
        assert(ts[k].span.start_spec() == byte_pos(cs, r.1));
        assert(ts[k].span.end_spec() == byte_pos(cs, r.2));
        if r.0 == TokenKind::Escaped {
            assert(cs[r.1] == '\\');
        }
    }
    assert forall|j: int, k: int| 0 <= j && k == j + 1 && k < ts.len() implies #[trigger] ts[j].span.end_spec() == #[trigger] ts[k].span.start_spec() by {
        assert(ts[j] == token_at(cs, ls[j]));
        assert(ts[k] == token_at(cs, ls[k]));
    }
}

/// The stream of an input tiles it: no token when the input is empty, else
/// the first starts at byte 0, each ends where the next starts, and the
/// last ends at the input's end; their kinds are those of the lexer.
pub proof fn lemma_stream_tiles(cs: Seq<char>)
    requires
        byte_len(cs) <= usize::MAX,
    ensures
        input_tokens(cs).len() == 0 <==> cs.len() == 0,
        input_tokens(cs).len() > 0 ==> input_tokens(cs)[0].span.start_spec() == 0 && input_tokens(cs).last().span.end_spec()
            == byte_len(cs),
        tokens_ok(cs, input_tokens(cs)),
        input_tokens(cs).len() == lex(cs).len(),
        forall|k: int| 0 <= k < input_tokens(cs).len() ==> (#[trigger] input_tokens(cs)[k]).kind == lex(cs)[k].0,
{
    lemma_input_tokens_ok(cs);
    lemma_lex_partition(cs, 0, EOF_CHAR);
    let ls = lex(cs);
    let ts = input_tokens(cs);
    if ts.len() > 0 {
        assert(ts.last() == token_at(cs, ls[ls.len() - 1]));
        assert(cs.take(cs.len() as int) =~= cs);
        assert(ts.last().span.end_spec() == byte_pos(cs, cs.len() as int));
    }
    assert forall|k: int| 0 <= k < ts.len() implies (#[trigger] ts[k]).kind == ls[k].0 by {
        assert(ts[k] == token_at(cs, ls[k]));
    }
}

/// Streams the tokens of an input, each with its byte span.
pub struct TokenStream {
    cursor: Cursor,
    consumed: usize,
    done: Ghost<Seq<(TokenKind, int, int)>>,
}

impl TokenStream {
    /// The characters of the input.
    pub closed spec fn chars_spec(&self) -> Seq<char> {
        self.cursor.chars_spec()
    }

    /// Number of tokens streamed so far.
    pub closed spec fn count_spec(&self) -> int {
        self.done@.len() as int
    }

    /// The stream's internal invariant.
    pub closed spec fn wf(&self) -> bool {
        let cs = self.cursor.chars_spec();
        &&& self.cursor.wf()
        &&& self.cursor.token_start_spec() == self.cursor.pos_spec()
        &&& 0 <= self.cursor.pos_spec() <= cs.len()
        &&& self.consumed == byte_pos(cs, self.cursor.pos_spec())
        &&& byte_len(cs) <= u32::MAX
        &&& lex(cs) == self.done@ + lex_from(cs, self.cursor.pos_spec(), self.cursor.prev_spec())
    }

    /// A stream of the tokens of `input`.
    pub fn new(input: &str) -> (s: Self)
        requires
            byte_len(input@) <= u32::MAX,
        ensures
            s.wf(),
            s.chars_spec() == input@,
            s.count_spec() == 0,
    {
        let s = Self { cursor: Cursor::new(input), consumed: 0, done: Ghost(Seq::empty()) };
        proof {
            assert(s.done@ + lex_from(input@, 0, EOF_CHAR) =~= lex(input@));
            assert(input@.take(0) =~= Seq::<char>::empty());
        }
        s
    }

    /// The next token, or `None` at the end of input.
    #[verifier::rlimit(40)]
    pub fn next(&mut self) -> (r: Option<Token>)
        requires
            old(self).wf(),
        ensures
            final(self).wf(),
            final(self).chars_spec() == old(self).chars_spec(),
            old(self).count_spec() < input_tokens(old(self).chars_spec()).len() ==> {
                &&& r == Some(input_tokens(old(self).chars_spec())[old(self).count_spec()])
                &&& final(self).count_spec() == old(self).count_spec() + 1
            },
            old(self).count_spec() >= input_tokens(old(self).chars_spec()).len() ==> {
                &&& r.is_none()
                &&& final(self).count_spec() == old(self).count_spec()
            },
    {
        let ghost cs = self.cursor.chars_spec();
        let ghost i = self.cursor.pos_spec();
        let ghost prev = self.cursor.prev_spec();
        let ghost done = self.done@;
        proof {
            lemma_stream_facts(cs, done, i, prev);
        }
        let t = self.cursor.advance_token();
        let start = self.consumed;
        self.consumed = self.consumed + t.len as usize;
        if t.kind == TokenKind::Eof && self.cursor.is_eof() {
            None
        } else {
            let ghost n = scan(cs, i, prev).1;
            let ghost head = (scan(cs, i, prev).0, i, i + n);
            proof {
                self.done = Ghost(done.push(head));
            }
            let span = Span::new(start, self.consumed);
            let tok = Token { kind: t.kind, span };
            proof {
                Span::lemma_eq(span, Span::at(start, self.consumed));
                assert(tok == token_at(cs, head));
            }
            Some(tok)
        }
    }
}

/// What one step of the stream relies on: where the next token lies and how
/// the tokens streamed so far grow.
proof fn lemma_stream_facts(cs: Seq<char>, done: Seq<(TokenKind, int, int)>, i: int, prev: char)
    requires
        0 <= i <= cs.len(),
        byte_len(cs) <= u32::MAX,
        lex(cs) == done + lex_from(cs, i, prev),
    ensures
        input_tokens(cs).len() == lex(cs).len(),
        i >= cs.len() ==> {
            &&& scan(cs, i, prev).0 == TokenKind::Eof
            &&& scan(cs, i, prev).1 == 0
            &&& cs.subrange(i, i) =~= Seq::<char>::empty()
            &&& done.len() == lex(cs).len()
        },
        i < cs.len() ==> {
            let n = scan(cs, i, prev).1;
            let head = (scan(cs, i, prev).0, i, i + n);
            &&& 1 <= n && i + n <= cs.len()
            &&& scan(cs, i, prev).0 != TokenKind::Eof
            &&& byte_pos(cs, i + n) == byte_pos(cs, i) + byte_len(cs.subrange(i, i + n))
            &&& byte_pos(cs, i + n) <= u32::MAX
            &&& lex(cs) == done.push(head) + lex_from(cs, i + n, cs[i + n - 1])
            &&& done.len() < lex(cs).len()
            &&& input_tokens(cs)[done.len() as int] == token_at(cs, head)
        },
{
    lemma_lex_partition(cs, i, prev);
    crate::encoding::lemma_byte_pos_mono(cs, 0, cs.len() as int);
    assert(cs.take(cs.len() as int) =~= cs);
    if i < cs.len() {
        lemma_scan_bounds(cs, i, prev);
        let n = scan(cs, i, prev).1;
        let head = (scan(cs, i, prev).0, i, i + n);
        lemma_byte_pos_mono(cs, i, i + n);
        lemma_byte_pos_mono(cs, i + n, cs.len() as int);
        assert(lex_from(cs, i, prev) =~= seq![head] + lex_from(cs, i + n, cs[i + n - 1]));
        assert(done + lex_from(cs, i, prev) =~= done.push(head) + lex_from(cs, i + n, cs[i + n - 1]));
        assert(lex(cs)[done.len() as int] == head);
    } else {
        assert(lex_from(cs, i, prev) =~= Seq::<(TokenKind, int, int)>::empty());
        assert(done + lex_from(cs, i, prev) =~= done);
    }
}

} // verus!
