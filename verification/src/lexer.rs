//! Turns recipe text into tokens.
//!
//! The lexer walks the characters of the input once. Each call of
//! [Cursor::advance_token] eats one token and reports its kind and its length
//! in bytes. [scan] states which token starts at a position, and [lex_from]
//! states the whole sequence of tokens of an input.
use vstd::prelude::*;

use crate::encoding::{
    byte_len, byte_pos, char_len_utf8, lemma_byte_len_concat, lemma_byte_pos_mono, lemma_byte_pos_next, str_chars,
};

verus! {

/// The character that [Cursor::first] and [Cursor::prev] report when there is none.
pub const EOF_CHAR: char = '\0';

/// A token: its kind and its length in bytes.
#[derive(Debug, Clone, Copy, PartialEq, Eq)]
pub struct Token {
    pub kind: TokenKind,
    pub len: u32,
}

impl Token {
    fn new(kind: TokenKind, len: u32) -> (t: Token)
        ensures
            t.kind == kind,
            t.len == len,
    {
        Token { kind, len }
    }
}

/// Kinds of tokens.
#[derive(Debug, Clone, Copy, PartialEq, Eq, Structural)]
pub enum TokenKind {
    /// ">>"
    MetadataStart,
    /// ">"
    TextStep,
    /// ":"
    Colon,
    /// "@"
    At,
    /// "#"
    Hash,
    /// "~"
    Tilde,
    /// "?"
    Question,
    /// "+"
    Plus,
    /// "-"
    Minus,
    /// "/"
    Slash,
    /// "*"
    Star,
    /// "&"
    And,
    /// "|"
    Or,
    /// "="
    Eq,
    /// "%"
    Percent,
    /// "{"
    OpenBrace,
    /// "}"
    CloseBrace,
    /// "("
    OpenParen,
    /// ")"
    CloseParen,
    /// "["
    OpenSquare,
    /// "]"
    CloseSquare,
    /// "14", "0", but not "014"
    Int,
    /// "3.14", ".14", but not "14."
    Float,
    /// Everything else, a "\" escapes the next char
    Word,
    /// "\" followed by any char
    Escaped,
    /// " " and \t
    Whitespace,
    /// \r\n and \n
    Newline,
    /// "-- any until newline"
    LineComment,
    /// "[- any until EOF or close -]"
    BlockComment,
    /// End of input
    Eof,
}

/// Whether `c` is in the Unicode general category P (punctuation).
pub uninterp spec fn is_unicode_punctuation(c: char) -> bool;

/// `finl_unicode::categories::CharacterCategories::is_punctuation` on a
/// `char`. The contract names the result of the Unicode table lookup and
/// claims nothing more of it.
#[verifier::external_body]
fn char_is_punctuation(c: char) -> (r: bool)
    ensures
        r == is_unicode_punctuation(c),
{
    finl_unicode::categories::CharacterCategories::is_punctuation(c)
}

/// The character at `i`, or [EOF_CHAR] past the end.
pub open spec fn first_at(cs: Seq<char>, i: int) -> char {
    if 0 <= i < cs.len() {
        cs[i]
    } else {
        EOF_CHAR
    }
}

/// Classes of characters that the lexer eats in runs.
#[derive(PartialEq, Eq, Structural, Clone, Copy)]
pub enum CharClass {
    /// Anything but "\n".
    NotNewline,
    /// " " or tab.
    Whitespace,
    /// Characters that may be part of a word.
    WordChar,
    /// ASCII digits.
    Digit,
}

/// Whether `c` belongs to the class `cls`.
pub open spec fn in_class(cls: CharClass, c: char) -> bool {
    match cls {
        CharClass::NotNewline => c != '\n',
        CharClass::Whitespace => is_whitespace_spec(c),
        CharClass::WordChar => is_word_char_spec(c),
        CharClass::Digit => is_digit_spec(c),
    }
}

/// Number of characters from `i` on that are in `cls`, up to the first that is not.
pub open spec fn run_len(cs: Seq<char>, i: int, cls: CharClass) -> nat
    decreases cs.len() - i,
{
    if 0 <= i < cs.len() && in_class(cls, cs[i]) {
        1 + run_len(cs, i + 1, cls)
    } else {
        0
    }
}

/// " " or tab.
pub open spec fn is_whitespace_spec(c: char) -> bool {
    c == ' ' || c == '\t'
}

/// "\n", or "\r" followed by "\n".
pub open spec fn is_newline_spec(c: char, first: char) -> bool {
    c == '\n' || (c == '\r' && first == '\n')
}

/// A character with a token of its own.
pub open spec fn is_special_spec(c: char) -> bool {
    c == '>' || c == ':' || c == '@' || c == '#' || c == '~' || c == '?' || c == '+' || c == '-'
        || c == '/' || c == '*' || c == '&' || c == '|' || c == '=' || c == '%' || c == '{'
        || c == '}' || c == '(' || c == ')' || c == '[' || c == ']'
}

/// A character that may be part of a word.
pub open spec fn is_word_char_spec(c: char) -> bool {
    !is_whitespace_spec(c) && c != '\n' && c != '\r' && !is_special_spec(c)
        && !is_unicode_punctuation(c)
}

/// An ASCII digit.
pub open spec fn is_digit_spec(c: char) -> bool {
    '0' <= c <= '9'
}

/// The kind of the one-character token `c`, if it is one.
pub open spec fn single_char_kind(c: char) -> Option<TokenKind> {
    if c == '>' {
        Some(TokenKind::TextStep)
    } else if c == ':' {
        Some(TokenKind::Colon)
    } else if c == '@' {
        Some(TokenKind::At)
    } else if c == '#' {
        Some(TokenKind::Hash)
    } else if c == '~' {
        Some(TokenKind::Tilde)
    } else if c == '?' {
        Some(TokenKind::Question)
    } else if c == '+' {
        Some(TokenKind::Plus)
    } else if c == '-' {
        Some(TokenKind::Minus)
    } else if c == '/' {
        Some(TokenKind::Slash)
    } else if c == '*' {
        Some(TokenKind::Star)
    } else if c == '&' {
        Some(TokenKind::And)
    } else if c == '|' {
        Some(TokenKind::Or)
    } else if c == '%' {
        Some(TokenKind::Percent)
    } else if c == '=' {
        Some(TokenKind::Eq)
    } else if c == '{' {
        Some(TokenKind::OpenBrace)
    } else if c == '}' {
        Some(TokenKind::CloseBrace)
    } else if c == '(' {
        Some(TokenKind::OpenParen)
    } else if c == ')' {
        Some(TokenKind::CloseParen)
    } else if c == '[' {
        Some(TokenKind::OpenSquare)
    } else if c == ']' {
        Some(TokenKind::CloseSquare)
    } else {
        None
    }
}

/// Index one past the end of a block comment whose body starts at `k`: just
/// after the first "-]", or the end of the input if it is never closed.
pub open spec fn block_comment_end(cs: Seq<char>, k: int) -> int
    decreases cs.len() - k,
{
    if k >= cs.len() {
        cs.len() as int
    } else if cs[k] == '-' && k + 1 < cs.len() && cs[k + 1] == ']' {
        k + 2
    } else {
        block_comment_end(cs, k + 1)
    }
}

/// Kind and number of characters of a number-like token whose first
/// character `c` was just eaten, with `j` the index after it.
///
/// "0" is an int, "01" a word, "0." a word, "0.[0-9]+" a float, "[1-9][0-9]*"
/// an int, and ".[0-9]+" a float.
pub open spec fn scan_number(cs: Seq<char>, j: int, c: char) -> (TokenKind, nat) {
    let digit = CharClass::Digit;
    if c == '.' {
        let d = run_len(cs, j, digit);
        (if d > 0 { TokenKind::Float } else { TokenKind::Word }, 1 + d)
    } else {
        let d1 = run_len(cs, j, digit);
        let p = j + d1;
        // the byte count of the token so far, as the lexer measures it
        let leading_zero = c == '0' && ((1 + d1) as u32) > 1;
        let divider = first_at(cs, p) == '.';
        let d2 = if divider { run_len(cs, p + 1, digit) } else { 0 };
        let n = 1 + d1 + if divider { 1 + d2 } else { 0 };
        if leading_zero {
            (TokenKind::Word, n)
        } else if !divider {
            (TokenKind::Int, n)
        } else if d2 > 0 {
            (TokenKind::Float, n)
        } else {
            (TokenKind::Word, n)
        }
    }
}

/// The token that starts at index `i` of `cs` when the character before it is
/// `prev`: its kind and its number of characters.
pub open spec fn scan(cs: Seq<char>, i: int, prev: char) -> (TokenKind, nat) {
    if i < 0 || i >= cs.len() {
        (TokenKind::Eof, 0)
    } else {
        let c = cs[i];
        let j = i + 1;
        let f = first_at(cs, j);
        if c == '\\' {
            (TokenKind::Escaped, if j < cs.len() { 2 } else { 1 })
        } else if c == '>' && f == '>' {
            (TokenKind::MetadataStart, 2)
        } else if c == '-' && f == '-' {
            (TokenKind::LineComment, 1 + run_len(cs, j, CharClass::NotNewline))
        } else if c == '[' && f == '-' {
            (TokenKind::BlockComment, (block_comment_end(cs, j + 1) - i) as nat)
        } else if is_whitespace_spec(c) {
            (TokenKind::Whitespace, 1 + run_len(cs, j, CharClass::Whitespace))
        } else if is_newline_spec(c, f) {
            (TokenKind::Newline, if c == '\r' { 2 } else { 1 })
        } else if is_digit_spec(c) {
            scan_number(cs, j, c)
        } else if c == '.' && is_digit_spec(f) && (!is_word_char_spec(prev) || prev == EOF_CHAR) {
            scan_number(cs, j, '.')
        } else if single_char_kind(c).is_some() {
            (single_char_kind(c).unwrap(), 1)
        } else if is_word_char_spec(c) {
            (TokenKind::Word, 1 + run_len(cs, j, CharClass::WordChar))
        } else {
            (TokenKind::Word, 1)
        }
    }
}

/// A run never passes the end of the input.
pub proof fn lemma_run_len_bound(cs: Seq<char>, i: int, cls: CharClass)
    requires
        0 <= i <= cs.len(),
    ensures
        i + run_len(cs, i, cls) <= cs.len(),
        forall|k: int| i <= k < i + run_len(cs, i, cls) ==> #[trigger] in_class(cls, cs[k]),
        i + run_len(cs, i, cls) < cs.len() ==> !in_class(cls, cs[i + run_len(cs, i, cls)]),
    decreases cs.len() - i,
{
    if i < cs.len() && in_class(cls, cs[i]) {
        lemma_run_len_bound(cs, i + 1, cls);
    }
}

/// A block comment never passes the end of the input.
pub proof fn lemma_block_comment_end_bound(cs: Seq<char>, k: int)
    requires
        0 <= k <= cs.len(),
    ensures
        k <= block_comment_end(cs, k) <= cs.len(),
    decreases cs.len() - k,
{
    if k < cs.len() && !(cs[k] == '-' && k + 1 < cs.len() && cs[k + 1] == ']') {
        lemma_block_comment_end_bound(cs, k + 1);
    }
}

/// Every token inside the input is at least one character long and ends
/// within the input.
pub proof fn lemma_scan_bounds(cs: Seq<char>, i: int, prev: char)
    requires
        0 <= i < cs.len(),
    ensures
        1 <= scan(cs, i, prev).1,
        i + scan(cs, i, prev).1 <= cs.len(),
        scan(cs, i, prev).0 != TokenKind::Eof,
{
    let j = i + 1;
    lemma_run_len_bound(cs, j, CharClass::NotNewline);
    lemma_run_len_bound(cs, j, CharClass::Whitespace);
    lemma_run_len_bound(cs, j, CharClass::WordChar);
    lemma_run_len_bound(cs, j, CharClass::Digit);
    let d1 = run_len(cs, j, CharClass::Digit);
    if j + d1 < cs.len() {
        lemma_run_len_bound(cs, j + d1 + 1, CharClass::Digit);
    }
    if j < cs.len() {
        lemma_block_comment_end_bound(cs, j + 1);
    }
}

/// The tokens of `cs` from index `i` on, where `prev` is the character before
/// `i`: each as its kind and the character range `start..end` it covers.
pub open spec fn lex_from(cs: Seq<char>, i: int, prev: char) -> Seq<(TokenKind, int, int)>
    decreases cs.len() - i,
{
    if i < 0 || i >= cs.len() {
        seq![]
    } else {
        proof {
            lemma_scan_bounds(cs, i, prev);
        }
        let n = scan(cs, i, prev).1;
        seq![(scan(cs, i, prev).0, i, i + n)] + lex_from(cs, i + n, cs[i + n - 1])
    }
}

/// The tokens of a whole input.
pub open spec fn lex(cs: Seq<char>) -> Seq<(TokenKind, int, int)> {
    lex_from(cs, 0, EOF_CHAR)
}

/// `ts` are adjacent, non-empty, in order, cover `start..end`, and none of
/// them is [TokenKind::Eof].
pub open spec fn is_partition(ts: Seq<(TokenKind, int, int)>, start: int, end: int) -> bool {
    &&& ts.len() == 0 <==> start == end
    &&& ts.len() > 0 ==> ts[0].1 == start && ts[ts.len() - 1].2 == end
    &&& forall|k: int| 0 <= k < ts.len() ==> (#[trigger] ts[k]).1 < ts[k].2 && ts[k].0 != TokenKind::Eof
    &&& forall|k: int| 0 <= k < ts.len() ==> start <= (#[trigger] ts[k]).1 && ts[k].2 <= end
    &&& forall|k: int| 0 <= k < ts.len() - 1 ==> (#[trigger] ts[k]).2 == ts[k + 1].1
}

/// The tokens of an input partition it: they are adjacent, non-empty, in
/// order, cover every character, and none of them is [TokenKind::Eof].
pub proof fn lemma_lex_partition(cs: Seq<char>, i: int, prev: char)
    requires
        0 <= i <= cs.len(),
    ensures
        is_partition(lex_from(cs, i, prev), i, cs.len() as int),
    decreases cs.len() - i,
{
    if i < cs.len() {
        lemma_scan_bounds(cs, i, prev);
        let n = scan(cs, i, prev).1;
        let kind = scan(cs, i, prev).0;
        lemma_lex_partition(cs, i + n, cs[i + n - 1]);
        let rest = lex_from(cs, i + n, cs[i + n - 1]);
        let ts = lex_from(cs, i, prev);
        let head = (kind, i, i + n);
        assert(ts =~= seq![head] + rest);
        assert(ts[0] == head);
        assert forall|k: int| 1 <= k < ts.len() implies #[trigger] ts[k] == rest[k - 1] by {}
        if rest.len() > 0 {
            assert(ts[ts.len() - 1] == rest[rest.len() - 1]);
        }
        assert forall|k: int| 0 <= k < ts.len() - 1 implies (#[trigger] ts[k]).2 == ts[k + 1].1 by {
            assert(ts[k + 1] == rest[k]);
            if k > 0 {
                assert(ts[k] == rest[k - 1]);
            }
        }
        assert forall|k: int| 0 <= k < ts.len() implies (#[trigger] ts[k]).1 < ts[k].2 && ts[k].0
            != TokenKind::Eof by {
            if k > 0 {
                assert(ts[k] == rest[k - 1]);
                assert(rest[k - 1].1 < rest[k - 1].2);
            }
        }
        assert forall|k: int| 0 <= k < ts.len() implies i <= (#[trigger] ts[k]).1 && ts[k].2
            <= cs.len() by {
            if k > 0 {
                assert(ts[k] == rest[k - 1]);
                assert(i + n <= rest[k - 1].1);
            }
        }
    } else {
        assert(lex_from(cs, i, prev).len() == 0);
    }
}

/// An escaped token starts with a backslash.
pub proof fn lemma_lex_escaped(cs: Seq<char>, i: int, prev: char)
    requires
        0 <= i <= cs.len(),
    ensures
        forall|k: int| 0 <= k < lex_from(cs, i, prev).len() && (#[trigger] lex_from(cs, i, prev)[k]).0 == TokenKind::Escaped
            ==> cs[lex_from(cs, i, prev)[k].1] == '\\',
    decreases cs.len() - i,
{
    if i < cs.len() {
        lemma_scan_bounds(cs, i, prev);
        let n = scan(cs, i, prev).1;
        let head = (scan(cs, i, prev).0, i, i + n);
        lemma_lex_escaped(cs, i + n, cs[i + n - 1]);
        let rest = lex_from(cs, i + n, cs[i + n - 1]);
        let ts = lex_from(cs, i, prev);
        assert(ts =~= seq![head] + rest);
        assert forall|k: int| 0 <= k < ts.len() && (#[trigger] ts[k]).0 == TokenKind::Escaped implies cs[ts[k].1] == '\\' by {
            if k > 0 {
                assert(ts[k] == rest[k - 1]);
            }
        }
    }
}

/// The kind of token that each character with a token of its own gives:
/// `>` a text step, `:` a colon, `@` an at, `#` a hash, `~` a tilde, `?`
/// a question mark, and so on for `+ - / * & | = % { } ( ) [ ]`.
pub open spec fn kind_of_own_char(c: char, k: TokenKind) -> bool {
    &&& c == '>' ==> k == TokenKind::TextStep
    &&& c == ':' ==> k == TokenKind::Colon
    &&& c == '@' ==> k == TokenKind::At
    &&& c == '#' ==> k == TokenKind::Hash
    &&& c == '~' ==> k == TokenKind::Tilde
    &&& c == '?' ==> k == TokenKind::Question
    &&& c == '+' ==> k == TokenKind::Plus
    &&& c == '-' ==> k == TokenKind::Minus
    &&& c == '/' ==> k == TokenKind::Slash
    &&& c == '*' ==> k == TokenKind::Star
    &&& c == '&' ==> k == TokenKind::And
    &&& c == '|' ==> k == TokenKind::Or
    &&& c == '=' ==> k == TokenKind::Eq
    &&& c == '%' ==> k == TokenKind::Percent
    &&& c == '{' ==> k == TokenKind::OpenBrace
    &&& c == '}' ==> k == TokenKind::CloseBrace
    &&& c == '(' ==> k == TokenKind::OpenParen
    &&& c == ')' ==> k == TokenKind::CloseParen
    &&& c == '[' ==> k == TokenKind::OpenSquare
    &&& c == ']' ==> k == TokenKind::CloseSquare
}

/// Whether a token that starts at `i` with `cs[i]` is two characters long
/// by its first two: `>>`, `--` (a line comment) or `[-` (a block comment).
pub open spec fn starts_pair(cs: Seq<char>, i: int) -> bool {
    let c = cs[i];
    let f = first_at(cs, i + 1);
    (c == '>' && f == '>') || (c == '-' && f == '-') || (c == '[' && f == '-')
}

/// A character with a token of its own, where it does not start `>>`,
/// `--` or `[-`, is a token of one character whose kind is that of the
/// character, whatever came before it: a `?` is a question mark, never a
/// word.
pub proof fn lemma_own_char_token(cs: Seq<char>, i: int, prev: char)
    requires
        0 <= i < cs.len(),
        is_special_spec(cs[i]),
        !starts_pair(cs, i),
    ensures
        scan(cs, i, prev).1 == 1,
        kind_of_own_char(cs[i], scan(cs, i, prev).0),
{
}

/// The token `t` is the one that [scan] reads at its start after some
/// character.
pub open spec fn scanned(cs: Seq<char>, t: (TokenKind, int, int)) -> bool {
    exists|p: char| t.0 == (#[trigger] scan(cs, t.1, p)).0 && t.2 == t.1 + scan(cs, t.1, p).1
}

/// The tokens of more than one character: `>>` starts metadata; `--`
/// starts a line comment that runs up to the end of its line; a
/// backslash escapes the character after it; spaces and tabs make one
/// token of white space; a line ends with `\n` or `\r\n`; and a word
/// runs over the characters that may be part of a word (a digit or a `.`
/// may start a number instead).
pub proof fn lemma_long_tokens(cs: Seq<char>, i: int, prev: char)
    requires
        0 <= i < cs.len(),
    ensures
        cs[i] == '>' && first_at(cs, i + 1) == '>' ==> scan(cs, i, prev) == (TokenKind::MetadataStart, 2nat),
        cs[i] == '-' && first_at(cs, i + 1) == '-' ==> {
            let n = scan(cs, i, prev).1;
            &&& scan(cs, i, prev).0 == TokenKind::LineComment
            &&& forall|j: int| i < j < i + n ==> #[trigger] cs[j] != '\n'
            &&& i + n < cs.len() ==> cs[i + n] == '\n'
        },
        cs[i] == '\\' ==> scan(cs, i, prev) == (TokenKind::Escaped, if i + 1 < cs.len() {
            2nat
        } else {
            1nat
        }),
        is_whitespace_spec(cs[i]) ==> {
            let n = scan(cs, i, prev).1;
            &&& scan(cs, i, prev).0 == TokenKind::Whitespace
            &&& forall|j: int| i <= j < i + n ==> is_whitespace_spec(#[trigger] cs[j])
            &&& i + n < cs.len() ==> !is_whitespace_spec(cs[i + n])
        },
        cs[i] == '\n' ==> scan(cs, i, prev) == (TokenKind::Newline, 1nat),
        cs[i] == '\r' && first_at(cs, i + 1) == '\n' ==> scan(cs, i, prev) == (TokenKind::Newline, 2nat),
        is_word_char_spec(cs[i]) && !is_digit_spec(cs[i]) && cs[i] != '.' && cs[i] != '\\' ==> {
            let n = scan(cs, i, prev).1;
            &&& scan(cs, i, prev).0 == TokenKind::Word
            &&& forall|j: int| i <= j < i + n ==> is_word_char_spec(#[trigger] cs[j])
            &&& i + n < cs.len() ==> !is_word_char_spec(cs[i + n])
        },
{
    let j = i + 1;
    lemma_run_len_bound(cs, j, CharClass::NotNewline);
    lemma_run_len_bound(cs, j, CharClass::Whitespace);
    lemma_run_len_bound(cs, j, CharClass::WordChar);
    let n = scan(cs, i, prev).1;
    if cs[i] == '-' && first_at(cs, i + 1) == '-' {
        assert forall|k: int| i < k < i + n implies #[trigger] cs[k] != '\n' by {
            assert(in_class(CharClass::NotNewline, cs[k]));
        }
    }
    if is_whitespace_spec(cs[i]) {
        assert forall|k: int| i <= k < i + n implies is_whitespace_spec(#[trigger] cs[k]) by {
            if k > i {
                assert(in_class(CharClass::Whitespace, cs[k]));
            }
        }
    }
    if is_word_char_spec(cs[i]) && !is_digit_spec(cs[i]) && cs[i] != '.' && cs[i] != '\\' {
        assert(!is_whitespace_spec(cs[i]) && !is_special_spec(cs[i]));
        assert(single_char_kind(cs[i]) is None);
        assert forall|k: int| i <= k < i + n implies is_word_char_spec(#[trigger] cs[k]) by {
            if k > i {
                assert(in_class(CharClass::WordChar, cs[k]));
            }
        }
    }
}

/// A token that starts with a digit other than `0` holds only digits and
/// `.`; when it holds digits only it is an integer, and it runs up to the
/// last of those digits, with no `.` right after them.
pub proof fn lemma_int_tokens(cs: Seq<char>, i: int, prev: char)
    requires
        0 <= i < cs.len(),
        '1' <= cs[i] <= '9',
    ensures
        forall|j: int| i <= j < i + scan(cs, i, prev).1 ==> is_digit_spec(#[trigger] cs[j]) || cs[j] == '.',
        (forall|j: int| i <= j < i + scan(cs, i, prev).1 ==> is_digit_spec(#[trigger] cs[j])) ==> {
            let n = scan(cs, i, prev).1;
            &&& scan(cs, i, prev).0 == TokenKind::Int
            &&& i + n < cs.len() ==> !is_digit_spec(cs[i + n]) && cs[i + n] != '.'
        },
{
    let j = i + 1;
    lemma_run_len_bound(cs, j, CharClass::Digit);
    let d1 = run_len(cs, j, CharClass::Digit);
    let p = j + d1;
    if p < cs.len() {
        lemma_run_len_bound(cs, p + 1, CharClass::Digit);
    }
    let n = scan(cs, i, prev).1;
    assert forall|k: int| i <= k < i + n implies is_digit_spec(#[trigger] cs[k]) || cs[k] == '.' by {
        if j <= k < p {
            assert(in_class(CharClass::Digit, cs[k]));
        } else if k > p {
            assert(in_class(CharClass::Digit, cs[k]));
        }
    }
    if first_at(cs, p) == '.' {
        assert(!is_digit_spec(cs[p]));
    }
}

/// A run of a class from `j` is exactly as long as the characters of
/// that class that follow `j` up to `k`, when the one at `k` is not of it.
proof fn lemma_run_len_exact(cs: Seq<char>, j: int, k: int, cls: CharClass)
    requires
        0 <= j <= k <= cs.len(),
        forall|m: int| j <= m < k ==> in_class(cls, #[trigger] cs[m]),
        k < cs.len() ==> !in_class(cls, cs[k]),
    ensures
        run_len(cs, j, cls) == k - j,
    decreases k - j,
{
    if j < k {
        lemma_run_len_exact(cs, j + 1, k, cls);
    }
}

/// Digits, a `.` and a digit make a decimal token that runs over the
/// digits after the `.`, unless the number starts with a `0` that another
/// digit follows: that starts a word (while the count of its characters
/// fits in a `u32`, as the lexer counts them).
pub proof fn lemma_decimal_tokens(cs: Seq<char>, i: int, k: int, prev: char)
    requires
        0 <= i < k < cs.len(),
        forall|j: int| i <= j < k ==> is_digit_spec(#[trigger] cs[j]),
        cs[k] == '.',
    ensures
        cs[i] == '0' && k > i + 1 && k - i <= u32::MAX ==> scan(cs, i, prev).0 == TokenKind::Word,
        !(cs[i] == '0' && k > i + 1) && k + 1 < cs.len() && is_digit_spec(cs[k + 1]) ==> {
            let n = scan(cs, i, prev).1;
            &&& scan(cs, i, prev).0 == TokenKind::Float
            &&& k + 1 < i + n
            &&& forall|j: int| k < j < i + n ==> is_digit_spec(#[trigger] cs[j])
            &&& i + n < cs.len() ==> !is_digit_spec(cs[i + n])
        },
{
    assert forall|m: int| i + 1 <= m < k implies in_class(CharClass::Digit, #[trigger] cs[m]) by {
        assert(is_digit_spec(cs[m]));
    }
    lemma_run_len_exact(cs, i + 1, k, CharClass::Digit);
    lemma_run_len_bound(cs, k + 1, CharClass::Digit);
    let n = scan(cs, i, prev).1;
    if !(cs[i] == '0' && k > i + 1) && k + 1 < cs.len() && is_digit_spec(cs[k + 1]) {
        assert forall|j: int| k < j < i + n implies is_digit_spec(#[trigger] cs[j]) by {
            assert(in_class(CharClass::Digit, cs[j]));
        }
    }
}

/// The token that the cursor reads at `i` is [TokenKind::Eof], with no
/// character, exactly at the end of the input; any other token holds at
/// least one character and at least one byte, no more bytes than are left,
/// and ends at a character boundary, where the next token starts.
pub proof fn lemma_token_bytes(cs: Seq<char>, i: int, prev: char)
    requires
        0 <= i <= cs.len(),
    ensures
        scan(cs, i, prev).0 == TokenKind::Eof <==> i == cs.len(),
        i == cs.len() ==> scan(cs, i, prev).1 == 0,
        i < cs.len() ==> {
            let n = scan(cs, i, prev).1;
            &&& 1 <= n && i + n <= cs.len()
            &&& 1 <= byte_len(cs.subrange(i, i + n)) <= byte_len(cs.subrange(i, cs.len() as int))
            &&& byte_pos(cs, i) + byte_len(cs.subrange(i, i + n)) == byte_pos(cs, i + n)
        },
{
    if i < cs.len() {
        lemma_scan_bounds(cs, i, prev);
        let n = scan(cs, i, prev).1;
        lemma_byte_pos_mono(cs, i, i + n);
        lemma_byte_pos_mono(cs, i + n, cs.len() as int);
        lemma_byte_pos_mono(cs, i, cs.len() as int);
    }
}

/// Every token of `lex_from(cs, i, prev)` is the one that [scan] reads at
/// its start, after the character before it.
pub proof fn lemma_lex_scanned(cs: Seq<char>, i: int, prev: char)
    requires
        0 <= i <= cs.len(),
    ensures
        forall|k: int| 0 <= k < lex_from(cs, i, prev).len() ==> scanned(cs, #[trigger] lex_from(cs, i, prev)[k]),
    decreases cs.len() - i,
{
    if i < cs.len() {
        lemma_scan_bounds(cs, i, prev);
        let n = scan(cs, i, prev).1;
        let head = (scan(cs, i, prev).0, i, i + n);
        lemma_lex_scanned(cs, i + n, cs[i + n - 1]);
        let rest = lex_from(cs, i + n, cs[i + n - 1]);
        let ts = lex_from(cs, i, prev);
        assert(ts =~= seq![head] + rest);
        assert forall|k: int| 0 <= k < ts.len() implies scanned(cs, #[trigger] ts[k]) by {
            if k == 0 {
                assert(ts[k].0 == scan(cs, ts[k].1, prev).0 && ts[k].2 == ts[k].1 + scan(cs, ts[k].1, prev).1);
            } else {
                assert(ts[k] == rest[k - 1]);
            }
        }
    } else {
        assert(lex_from(cs, i, prev).len() == 0);
    }
}

/// In the tokens of an input, a character with a token of its own that
/// does not start `>>`, `--` or `[-` stands alone in a token of its kind:
/// the token that starts at a `?` is a question mark one character long.
pub proof fn lemma_lex_own_chars(cs: Seq<char>)
    ensures
        forall|k: int|
            0 <= k < lex(cs).len() && is_special_spec(cs[(#[trigger] lex(cs)[k]).1]) && !starts_pair(
                cs,
                lex(cs)[k].1,
            ) ==> lex(cs)[k].2 == lex(cs)[k].1 + 1 && kind_of_own_char(cs[lex(cs)[k].1], lex(cs)[k].0),
{
    lemma_lex_scanned(cs, 0, EOF_CHAR);
    lemma_lex_partition(cs, 0, EOF_CHAR);
    assert forall|k: int|
        0 <= k < lex(cs).len() && is_special_spec(cs[(#[trigger] lex(cs)[k]).1]) && !starts_pair(
            cs,
            lex(cs)[k].1,
        ) implies lex(cs)[k].2 == lex(cs)[k].1 + 1 && kind_of_own_char(cs[lex(cs)[k].1], lex(cs)[k].0) by {
        let t = lex(cs)[k];
        assert(0 <= t.1 < cs.len());
        let p = choose|p: char| t.0 == (#[trigger] scan(cs, t.1, p)).0 && t.2 == t.1 + scan(cs, t.1, p).1;
        lemma_own_char_token(cs, t.1, p);
    }
}

/// Peekable cursor over the characters of a `&str`.
pub struct Cursor {
    chars: Vec<char>,
    pos: usize,
    token_start: usize,
    token_bytes: usize,
    prev: char,
}

impl Cursor {
    /// All characters of the input.
    pub closed spec fn chars_spec(&self) -> Seq<char> {
        self.chars@
    }

    /// Index of the next character to eat.
    pub closed spec fn pos_spec(&self) -> int {
        self.pos as int
    }

    /// Index where the token being eaten started.
    pub closed spec fn token_start_spec(&self) -> int {
        self.token_start as int
    }

    /// The last eaten character.
    pub closed spec fn prev_spec(&self) -> char {
        self.prev
    }

    /// The cursor's internal invariant.
    pub closed spec fn wf(&self) -> bool {
        &&& self.token_start <= self.pos <= self.chars@.len()
        &&& self.token_bytes == byte_pos(self.chars@, self.pos as int) - byte_pos(self.chars@, self.token_start as int)
        &&& byte_len(self.chars@) <= usize::MAX
    }

    /// A cursor at the start of `input`.
    pub fn new(input: &str) -> (c: Self)
        requires
            byte_len(input@) <= usize::MAX,
        ensures
            c.wf(),
            c.chars_spec() == input@,
            c.pos_spec() == 0,
            c.token_start_spec() == 0,
            c.prev_spec() == EOF_CHAR,
    {
        let chars = str_chars(input);
        Self { chars, pos: 0, token_start: 0, token_bytes: 0, prev: EOF_CHAR }
    }

    /// Returns the last eaten symbol.
    pub(crate) fn prev(&self) -> (r: char)
        ensures
            r == self.prev_spec(),
    {
        self.prev
    }

    /// Peeks the next char. If none, [EOF_CHAR] is returned.
    pub(crate) fn first(&self) -> (r: char)
        requires
            self.wf(),
        ensures
            r == first_at(self.chars_spec(), self.pos_spec()),
    {
        if self.pos < self.chars.len() {
            self.chars[self.pos]
        } else {
            EOF_CHAR
        }
    }

    /// Checks if there is more input to consume.
    pub(crate) fn is_eof(&self) -> (r: bool)
        requires
            self.wf(),
        ensures
            r == (self.pos_spec() >= self.chars_spec().len()),
    {
        self.pos >= self.chars.len()
    }

    /// Number of bytes eaten since the last reset.
    pub(crate) fn pos_within_token(&self) -> (r: u32)
        requires
            self.wf(),
        ensures
            r == (byte_pos(self.chars_spec(), self.pos_spec()) - byte_pos(self.chars_spec(), self.token_start_spec())) as u32,
    {
        self.token_bytes as u32
    }

    /// Resets the number of bytes eaten to 0.
    pub(crate) fn reset_pos_within_token(&mut self)
        requires
            old(self).wf(),
        ensures
            final(self).wf(),
            final(self).chars_spec() == old(self).chars_spec(),
            final(self).pos_spec() == old(self).pos_spec(),
            final(self).prev_spec() == old(self).prev_spec(),
            final(self).token_start_spec() == old(self).pos_spec(),
    {
        self.token_start = self.pos;
        self.token_bytes = 0;
    }

    /// Moves to the next character.
    pub(crate) fn bump(&mut self) -> (r: Option<char>)
        requires
            old(self).wf(),
        ensures
            final(self).wf(),
            final(self).chars_spec() == old(self).chars_spec(),
            final(self).token_start_spec() == old(self).token_start_spec(),
            old(self).pos_spec() < old(self).chars_spec().len() ==> {
                &&& r == Some(old(self).chars_spec()[old(self).pos_spec()])
                &&& final(self).pos_spec() == old(self).pos_spec() + 1
                &&& final(self).prev_spec() == old(self).chars_spec()[old(self).pos_spec()]
            },
            old(self).pos_spec() >= old(self).chars_spec().len() ==> {
                &&& r.is_none()
                &&& final(self).pos_spec() == old(self).pos_spec()
                &&& final(self).prev_spec() == old(self).prev_spec()
            },
    {
        if self.pos < self.chars.len() {
            let c = self.chars[self.pos];
            let w = char_len_utf8(c);
            proof {
                lemma_byte_pos_next(self.chars@, self.pos as int);
                lemma_byte_pos_mono(self.chars@, self.pos as int + 1, self.chars@.len() as int);
                lemma_byte_pos_mono(self.chars@, self.token_start as int, self.pos as int);
                assert(self.chars@.take(self.chars@.len() as int) =~= self.chars@);
            }
            self.token_bytes = self.token_bytes + w;
            self.pos = self.pos + 1;
            self.prev = c;
            Some(c)
        } else {
            None
        }
    }

    /// Eats symbols while `predicate` holds or until the end of input.
    pub(crate) fn eat_while<F: Fn(char) -> bool>(&mut self, predicate: F, Ghost(p): Ghost<CharClass>)
        requires
            old(self).wf(),
            forall|c: char| #[trigger] predicate.requires((c,)),
            forall|c: char, r: bool| #[trigger] predicate.ensures((c,), r) ==> r == in_class(p, c),
        ensures
            final(self).wf(),
            final(self).chars_spec() == old(self).chars_spec(),
            final(self).token_start_spec() == old(self).token_start_spec(),
            final(self).pos_spec() == old(self).pos_spec() + run_len(old(self).chars_spec(), old(self).pos_spec(), p),
            final(self).pos_spec() > old(self).pos_spec() ==> final(self).prev_spec() == old(self).chars_spec()[final(self).pos_spec() - 1],
            final(self).pos_spec() == old(self).pos_spec() ==> final(self).prev_spec() == old(self).prev_spec(),
    {
        let ghost cs = self.chars@;
        let ghost start = self.pos as int;
        let ghost prev0 = self.prev;
        while predicate(self.first()) && !self.is_eof()
            invariant
                self.wf(),
                self.chars@ == cs,
                self.token_start == old(self).token_start,
                start <= self.pos,
                forall|c: char| #[trigger] predicate.requires((c,)),
                forall|c: char, r: bool| #[trigger] predicate.ensures((c,), r) ==> r == in_class(p, c),
                run_len(cs, start, p) == (self.pos - start) + run_len(cs, self.pos as int, p),
                self.pos > start ==> self.prev == cs[self.pos - 1],
                self.pos == start ==> self.prev == prev0,
            decreases cs.len() - self.pos,
        {
            self.bump();
        }
    }
}

/// A run of digits, one byte each, takes as many bytes as characters.
proof fn lemma_digits_bytes(cs: Seq<char>, i: int, n: int)
    requires
        0 <= i <= i + n <= cs.len(),
        forall|k: int| i <= k < i + n ==> is_digit_spec(#[trigger] cs[k]),
    ensures
        byte_pos(cs, i + n) == byte_pos(cs, i) + n,
    decreases n,
{
    if n > 0 {
        lemma_digits_bytes(cs, i, n - 1);
        lemma_byte_pos_next(cs, i + n - 1);
        assert(is_digit_spec(cs[i + n - 1]));
    }
}

impl Cursor {
    /// Eats one token and returns it.
    pub fn advance_token(&mut self) -> (t: Token)
        requires
            old(self).wf(),
            old(self).token_start_spec() == old(self).pos_spec(),
        ensures
            final(self).wf(),
            final(self).chars_spec() == old(self).chars_spec(),
            ({
                let cs = old(self).chars_spec();
                let i = old(self).pos_spec();
                let n = scan(cs, i, old(self).prev_spec()).1;
                &&& t.kind == scan(cs, i, old(self).prev_spec()).0
                &&& t.len == byte_len(cs.subrange(i, i + n)) as u32
                &&& final(self).pos_spec() == i + n
                &&& final(self).token_start_spec() == i + n
                &&& n > 0 ==> final(self).prev_spec() == cs[i + n - 1]
                &&& n == 0 ==> final(self).prev_spec() == old(self).prev_spec()
            }),
    {
        let ghost cs = self.chars@;
        let ghost i = self.pos as int;
        let prev = self.prev();
        let first_char = match self.bump() {
            Some(c) => c,
            None => {
                proof {
                    assert(cs.subrange(i, i) =~= Seq::<char>::empty());
                }
                return Token::new(TokenKind::Eof, 0);
            },
        };
        proof {
            lemma_scan_bounds(cs, i, prev);
        }
        let token_kind = match first_char {
            // escape next symbol
            '\\' => {
                self.bump();
                TokenKind::Escaped
            },
            // multi char tokens
            '>' if self.first() == '>' => {
                self.bump();
                TokenKind::MetadataStart
            },
            '-' if self.first() == '-' => self.line_comment(),
            '[' if self.first() == '-' => self.block_comment(),
            c if is_whitespace(c) => self.whitespace(),
            c if is_newline(c, self.first()) => self.newline(c),
            c if is_digit(c) => self.number(c),
            '.' if is_digit(self.first()) && (!is_word_char(prev) || prev == EOF_CHAR) => {
                self.number('.')
            },
            // single char tokens
            '>' => TokenKind::TextStep,
            ':' => TokenKind::Colon,
            '@' => TokenKind::At,
            '#' => TokenKind::Hash,
            '~' => TokenKind::Tilde,
            '?' => TokenKind::Question,
            '+' => TokenKind::Plus,
            '-' => TokenKind::Minus,
            '/' => TokenKind::Slash,
            '*' => TokenKind::Star,
            '&' => TokenKind::And,
            '|' => TokenKind::Or,
            '%' => TokenKind::Percent,
            '=' => TokenKind::Eq,
            '{' => TokenKind::OpenBrace,
            '}' => TokenKind::CloseBrace,
            '(' => TokenKind::OpenParen,
            ')' => TokenKind::CloseParen,
            '[' => TokenKind::OpenSquare,
            ']' => TokenKind::CloseSquare,
            c if is_word_char(c) => self.word(),
            // anything else, a one char word
            _ => TokenKind::Word,
        };
        proof {
            lemma_byte_pos_mono(cs, i, self.pos as int);
        }
        let token = Token::new(token_kind, self.pos_within_token());
        self.reset_pos_within_token();
        token
    }

    /// "--" up to the end of the line.
    fn line_comment(&mut self) -> (k: TokenKind)
        requires
            old(self).wf(),
        ensures
            final(self).wf(),
            final(self).chars_spec() == old(self).chars_spec(),
            final(self).token_start_spec() == old(self).token_start_spec(),
            final(self).pos_spec() == old(self).pos_spec() + run_len(old(self).chars_spec(), old(self).pos_spec(), CharClass::NotNewline),
            final(self).pos_spec() > old(self).pos_spec() ==> final(self).prev_spec() == old(self).chars_spec()[final(self).pos_spec() - 1],
            final(self).pos_spec() == old(self).pos_spec() ==> final(self).prev_spec() == old(self).prev_spec(),
            k == TokenKind::LineComment,
    {
        self.eat_while(|c: char| -> (r: bool) ensures r == (c != '\n') { c != '\n' }, Ghost(CharClass::NotNewline));
        TokenKind::LineComment
    }

    /// "[-" up to the first "-]" or the end of input; the "[" is eaten and
    /// the "-" is next.
    fn block_comment(&mut self) -> (k: TokenKind)
        requires
            old(self).wf(),
            old(self).pos_spec() < old(self).chars_spec().len(),
        ensures
            final(self).wf(),
            final(self).chars_spec() == old(self).chars_spec(),
            final(self).token_start_spec() == old(self).token_start_spec(),
            final(self).pos_spec() == block_comment_end(old(self).chars_spec(), old(self).pos_spec() + 1),
            final(self).prev_spec() == old(self).chars_spec()[final(self).pos_spec() - 1],
            k == TokenKind::BlockComment,
    {
        let ghost cs = self.chars@;
        let ghost start = self.pos as int + 1;
        self.bump(); // '-'
        proof {
            lemma_block_comment_end_bound(cs, start);
        }
        loop
            invariant_except_break
                self.wf(),
                self.chars@ == cs,
                self.token_start == old(self).token_start,
                start <= self.pos <= cs.len(),
                block_comment_end(cs, start) == block_comment_end(cs, self.pos as int),
                self.prev == cs[self.pos - 1],
            ensures
                self.wf(),
                self.chars@ == cs,
                self.token_start == old(self).token_start,
                self.pos == block_comment_end(cs, start),
                self.prev == cs[self.pos - 1],
            decreases cs.len() - self.pos,
        {
            match self.bump() {
                Some(c) => {
                    if c == '-' && self.first() == ']' {
                        self.bump();
                        break;
                    }
                },
                None => {
                    break;
                },
            }
        }
        TokenKind::BlockComment
    }

    /// A word; its first character is eaten.
    fn word(&mut self) -> (k: TokenKind)
        requires
            old(self).wf(),
        ensures
            final(self).wf(),
            final(self).chars_spec() == old(self).chars_spec(),
            final(self).token_start_spec() == old(self).token_start_spec(),
            final(self).pos_spec() == old(self).pos_spec() + run_len(old(self).chars_spec(), old(self).pos_spec(), CharClass::WordChar),
            final(self).pos_spec() > old(self).pos_spec() ==> final(self).prev_spec() == old(self).chars_spec()[final(self).pos_spec() - 1],
            final(self).pos_spec() == old(self).pos_spec() ==> final(self).prev_spec() == old(self).prev_spec(),
            k == TokenKind::Word,
    {
        self.eat_while(|c: char| -> (r: bool) ensures r == is_word_char_spec(c) { is_word_char(c) }, Ghost(CharClass::WordChar));
        TokenKind::Word
    }

    /// Whitespace; its first character is eaten.
    fn whitespace(&mut self) -> (k: TokenKind)
        requires
            old(self).wf(),
        ensures
            final(self).wf(),
            final(self).chars_spec() == old(self).chars_spec(),
            final(self).token_start_spec() == old(self).token_start_spec(),
            final(self).pos_spec() == old(self).pos_spec() + run_len(old(self).chars_spec(), old(self).pos_spec(), CharClass::Whitespace),
            final(self).pos_spec() > old(self).pos_spec() ==> final(self).prev_spec() == old(self).chars_spec()[final(self).pos_spec() - 1],
            final(self).pos_spec() == old(self).pos_spec() ==> final(self).prev_spec() == old(self).prev_spec(),
            k == TokenKind::Whitespace,
    {
        self.eat_while(|c: char| -> (r: bool) ensures r == is_whitespace_spec(c) { is_whitespace(c) }, Ghost(CharClass::Whitespace));
        TokenKind::Whitespace
    }

    /// A newline whose first character `c` is eaten.
    fn newline(&mut self, c: char) -> (k: TokenKind)
        requires
            old(self).wf(),
            c == '\r' ==> old(self).pos_spec() < old(self).chars_spec().len(),
        ensures
            final(self).wf(),
            final(self).chars_spec() == old(self).chars_spec(),
            final(self).token_start_spec() == old(self).token_start_spec(),
            c == '\r' ==> final(self).pos_spec() == old(self).pos_spec() + 1
                && final(self).prev_spec() == old(self).chars_spec()[old(self).pos_spec()],
            c != '\r' ==> final(self).pos_spec() == old(self).pos_spec()
                && final(self).prev_spec() == old(self).prev_spec(),
            k == TokenKind::Newline,
    {
        if c == '\r' {
            self.bump();
        }
        TokenKind::Newline
    }

    /// Tokenizes a number-like token whose first character `c` is eaten.
    ///
    /// 0 => int (0)
    /// 01 => word (no leading 0)
    /// 0. => word
    /// 0.[0-9]+ => float
    /// [1-9]+ => int
    fn number(&mut self, c: char) -> (k: TokenKind)
        requires
            old(self).wf(),
            c == '.' || is_digit_spec(c),
            old(self).pos_spec() >= 1,
            old(self).token_start_spec() == old(self).pos_spec() - 1,
            old(self).chars_spec()[old(self).pos_spec() - 1] == c,
        ensures
            final(self).wf(),
            final(self).chars_spec() == old(self).chars_spec(),
            final(self).token_start_spec() == old(self).token_start_spec(),
            final(self).pos_spec() == old(self).pos_spec() + scan_number(old(self).chars_spec(), old(self).pos_spec(), c).1 - 1,
            k == scan_number(old(self).chars_spec(), old(self).pos_spec(), c).0,
            final(self).pos_spec() > old(self).pos_spec() ==> final(self).prev_spec() == old(self).chars_spec()[final(self).pos_spec() - 1],
            final(self).pos_spec() == old(self).pos_spec() ==> final(self).prev_spec() == old(self).prev_spec(),
    {
        let ghost cs = self.chars@;
        let ghost j = self.pos as int;
        proof {
            lemma_run_len_bound(cs, j, CharClass::Digit);
        }
        // no int special case
        if c == '.' {
            if self.eat_digits() {
                return TokenKind::Float;
            } else {
                return TokenKind::Word;
            }
        }
        // Regular number
        let has_int = self.eat_digits() || is_digit(c);
        proof {
            let d1 = run_len(cs, j, CharClass::Digit);
            assert forall|k: int| j - 1 <= k < j + d1 implies is_digit_spec(#[trigger] cs[k]) by {
                if k >= j {
                    assert(in_class(CharClass::Digit, cs[k]));
                }
            }
            lemma_digits_bytes(cs, j - 1, (d1 + 1) as int);
        }
        let int_leading_zero = c == '0' && self.pos_within_token() > 1;
        let has_divider = self.first() == '.';
        let ghost p = self.pos as int;
        let has_frac = if has_divider {
            self.bump();
            proof {
                lemma_run_len_bound(cs, p + 1, CharClass::Digit);
            }
            self.eat_digits()
        } else {
            false
        };
        if int_leading_zero {
            return TokenKind::Word;
        }
        match (has_int, has_divider, has_frac) {
            (true, false, false) => TokenKind::Int,
            (_, true, true) => TokenKind::Float,
            _ => TokenKind::Word,
        }
    }

    /// Eats ASCII digits; returns whether there was at least one.
    fn eat_digits(&mut self) -> (r: bool)
        requires
            old(self).wf(),
        ensures
            final(self).wf(),
            final(self).chars_spec() == old(self).chars_spec(),
            final(self).token_start_spec() == old(self).token_start_spec(),
            final(self).pos_spec() == old(self).pos_spec() + run_len(old(self).chars_spec(), old(self).pos_spec(), CharClass::Digit),
            r == (run_len(old(self).chars_spec(), old(self).pos_spec(), CharClass::Digit) > 0),
            final(self).pos_spec() > old(self).pos_spec() ==> final(self).prev_spec() == old(self).chars_spec()[final(self).pos_spec() - 1],
            final(self).pos_spec() == old(self).pos_spec() ==> final(self).prev_spec() == old(self).prev_spec(),
    {
        let ghost cs = self.chars@;
        let ghost start = self.pos as int;
        let mut has_digits = false;
        loop
            invariant_except_break
                self.wf(),
                self.chars@ == cs,
                self.token_start == old(self).token_start,
                start <= self.pos,
                run_len(cs, start, CharClass::Digit) == (self.pos - start) + run_len(cs, self.pos as int, CharClass::Digit),
                has_digits == (self.pos > start),
                self.pos > start ==> self.prev == cs[self.pos - 1],
                self.pos == start ==> self.prev == old(self).prev,
            ensures
                self.wf(),
                self.chars@ == cs,
                self.token_start == old(self).token_start,
                self.pos == start + run_len(cs, start, CharClass::Digit),
                has_digits == (self.pos > start),
                self.pos > start ==> self.prev == cs[self.pos - 1],
                self.pos == start ==> self.prev == old(self).prev,
            decreases cs.len() - self.pos,
        {
            if is_digit(self.first()) {
                has_digits = true;
                self.bump();
            } else {
                break;
            }
        }
        has_digits
    }
}

/// The tokens of `input`, up to its end.
pub fn tokenize(input: &str) -> (ts: Vec<Token>)
    requires
        byte_len(input@) <= usize::MAX,
    ensures
        ts.len() == lex(input@).len(),
        forall|k: int| 0 <= k < ts.len() ==> (#[trigger] ts@[k]).kind == lex(input@)[k].0
            && ts@[k].len == byte_len(input@.subrange(lex(input@)[k].1, lex(input@)[k].2)) as u32,
        byte_len(input@) <= u32::MAX ==> tokens_len(ts@) == byte_len(input@) && forall|k: int|
            0 <= k < ts.len() ==> (#[trigger] ts@[k]).kind != TokenKind::Eof && ts@[k].len >= 1,
{
    let mut cursor = Cursor::new(input);
    let ghost cs = input@;
    let mut ts: Vec<Token> = Vec::new();
    let ghost mut done: Seq<(TokenKind, int, int)> = Seq::empty();
    proof {
        lemma_lex_partition(cs, 0, EOF_CHAR);
        assert(done + lex_from(cs, 0, EOF_CHAR) =~= lex(cs));
    }
    loop
        invariant_except_break
            cursor.wf(),
            cursor.chars_spec() == cs,
            cursor.token_start_spec() == cursor.pos_spec(),
            0 <= cursor.pos_spec() <= cs.len(),
            lex(cs) == done + lex_from(cs, cursor.pos_spec(), cursor.prev_spec()),
            ts.len() == done.len(),
            forall|k: int| 0 <= k < ts.len() ==> (#[trigger] ts@[k]).kind == done[k].0
                && ts@[k].len == byte_len(cs.subrange(done[k].1, done[k].2)) as u32,
        ensures
            lex(cs) == done,
            ts.len() == done.len(),
            forall|k: int| 0 <= k < ts.len() ==> (#[trigger] ts@[k]).kind == done[k].0
                && ts@[k].len == byte_len(cs.subrange(done[k].1, done[k].2)) as u32,
        decreases cs.len() - cursor.pos_spec(),
    {
        let ghost i = cursor.pos_spec();
        let ghost prev = cursor.prev_spec();
        let token = cursor.advance_token();
        if token.kind == TokenKind::Eof {
            proof {
                if i < cs.len() {
                    lemma_scan_bounds(cs, i, prev);
                }
                assert(lex_from(cs, i, prev) =~= Seq::<(TokenKind, int, int)>::empty());
                assert(done + Seq::<(TokenKind, int, int)>::empty() =~= done);
            }
            break;
        }
        let ghost n = scan(cs, i, prev).1;
        let ghost head = (scan(cs, i, prev).0, i, i + n);
        proof {
            lemma_scan_bounds(cs, i, prev);
            assert(lex_from(cs, i, prev) =~= seq![head] + lex_from(cs, i + n, cs[i + n - 1]));
            assert(done + lex_from(cs, i, prev) =~= done.push(head) + lex_from(cs, i + n, cs[i + n - 1]));
            done = done.push(head);
        }
        ts.push(token);
    }
    proof {
        if byte_len(cs) <= u32::MAX {
            lemma_tokens_tile(cs, ts@);
        }
    }
    ts
}

/// " " or tab.
fn is_whitespace(c: char) -> (r: bool)
    ensures
        r == is_whitespace_spec(c),
{
    c == ' ' || c == '\t'
}

/// "\n", or "\r" followed by "\n".
fn is_newline(c: char, first: char) -> (r: bool)
    ensures
        r == is_newline_spec(c, first),
{
    c == '\n' || (c == '\r' && first == '\n')
}

/// Whether `c` is one of the characters with a token of their own.
fn is_special(c: char) -> (r: bool)
    ensures
        r == is_special_spec(c),
{
    let special: [char; 20] = [
        '>', ':', '@', '#', '~', '?', '+', '-', '/', '*', '&', '|', '=', '%', '{', '}', '(', ')',
        '[', ']',
    ];
    let mut i: usize = 0;
    while i < 20
        invariant
            0 <= i <= 20,
            special@ == seq!['>', ':', '@', '#', '~', '?', '+', '-', '/', '*', '&', '|', '=', '%', '{', '}', '(', ')', '[', ']'],
            forall|k: int| 0 <= k < i ==> special@[k] != c,
        decreases 20 - i,
    {
        if special[i] == c {
            return true;
        }
        i = i + 1;
    }
    false
}

/// Whether `c` may be part of a word.
fn is_word_char(c: char) -> (r: bool)
    ensures
        r == is_word_char_spec(c),
{
    !is_whitespace(c) && c != '\n' && c != '\r' && !is_special(c) && !char_is_punctuation(c)
}

/// An ASCII digit.
fn is_digit(c: char) -> (r: bool)
    ensures
        r == is_digit_spec(c),
{
    '0' <= c && c <= '9'
}

/// The byte lengths of the tokens, added up.
pub open spec fn tokens_len(ts: Seq<Token>) -> int
    decreases ts.len(),
{
    if ts.len() == 0 {
        0
    } else {
        tokens_len(ts.drop_last()) + ts.last().len
    }
}

/// `ts` are the tokens of `cs`, kind and byte length of each, as
/// [tokenize] gives them.
pub open spec fn tokens_of(cs: Seq<char>, ts: Seq<Token>) -> bool {
    &&& ts.len() == lex(cs).len()
    &&& forall|k: int| 0 <= k < ts.len() ==> (#[trigger] ts[k]).kind == lex(cs)[k].0 && ts[k].len == byte_len(
        cs.subrange(lex(cs)[k].1, lex(cs)[k].2),
    ) as u32
}

/// A piece of text takes no more bytes than the whole.
proof fn lemma_byte_len_subrange(cs: Seq<char>, a: int, b: int)
    requires
        0 <= a <= b <= cs.len(),
    ensures
        byte_len(cs.subrange(a, b)) <= byte_len(cs),
        a < b ==> byte_len(cs.subrange(a, b)) >= 1,
{
    lemma_byte_len_concat(cs.subrange(0, a), cs.subrange(a, b));
    lemma_byte_len_concat(cs.subrange(0, a) + cs.subrange(a, b), cs.subrange(b, cs.len() as int));
    assert(cs.subrange(0, a) + cs.subrange(a, b) + cs.subrange(b, cs.len() as int) =~= cs);
    if a < b {
        let s = cs.subrange(a, b);
        assert(byte_len(s) == crate::encoding::char_width(s[0]) + byte_len(s.drop_first()));
    }
}

/// The tokens before the `m`-th take the bytes of the text before it.
proof fn lemma_tokens_prefix(cs: Seq<char>, ts: Seq<Token>, m: int)
    requires
        tokens_of(cs, ts),
        is_partition(lex(cs), 0, cs.len() as int),
        byte_len(cs) <= u32::MAX,
        0 <= m <= ts.len(),
    ensures
        tokens_len(ts.take(m)) == byte_len(cs.subrange(0, if m == 0 { 0 } else { lex(cs)[m - 1].2 })),
    decreases m,
{
    let p = lex(cs);
    if m == 0 {
        assert(cs.subrange(0, 0) =~= Seq::<char>::empty());
    } else {
        lemma_tokens_prefix(cs, ts, m - 1);
        assert(ts.take(m).drop_last() =~= ts.take(m - 1));
        let start = if m - 1 == 0 { 0 } else { p[m - 2].2 };
        assert(p[m - 1].1 == start) by {
            if m - 1 > 0 {
                assert(p[m - 2].2 == p[m - 1].1);
            }
        }
        lemma_byte_len_concat(cs.subrange(0, start), cs.subrange(start, p[m - 1].2));
        assert(cs.subrange(0, start) + cs.subrange(start, p[m - 1].2) =~= cs.subrange(0, p[m - 1].2));
        lemma_byte_len_subrange(cs, start, p[m - 1].2);
    }
}

/// The tokens of a text tile it: none is the end of input or empty, and
/// their byte lengths add up to the text's.
pub proof fn lemma_tokens_tile(cs: Seq<char>, ts: Seq<Token>)
    requires
        tokens_of(cs, ts),
        byte_len(cs) <= u32::MAX,
    ensures
        tokens_len(ts) == byte_len(cs),
        forall|k: int| 0 <= k < ts.len() ==> (#[trigger] ts[k]).kind != TokenKind::Eof && ts[k].len >= 1,
        cs.len() == 0 ==> ts.len() == 0,
{
    lemma_lex_partition(cs, 0, EOF_CHAR);
    let p = lex(cs);
    lemma_tokens_prefix(cs, ts, ts.len() as int);
    assert(ts.take(ts.len() as int) =~= ts);
    if ts.len() == 0 {
        assert(cs.len() == 0);
        assert(cs.subrange(0, 0) =~= cs);
    } else {
        assert(cs.subrange(0, p[ts.len() - 1].2) =~= cs);
    }
    assert forall|k: int| 0 <= k < ts.len() implies (#[trigger] ts[k]).kind != TokenKind::Eof && ts[k].len >= 1 by {
        lemma_byte_len_subrange(cs, p[k].1, p[k].2);
    }
}

} // verus!
