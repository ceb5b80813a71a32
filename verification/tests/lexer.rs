use cooklang::lexer::tokenize;
use cooklang::lexer::TokenKind;
use cooklang::lexer::TokenKind::{
    At, BlockComment, CloseBrace, CloseParen, Colon, Eof, Escaped, Float, Int, LineComment,
    MetadataStart, Newline, OpenBrace, OpenParen, Percent, Tilde, Whitespace, Word,
};

fn kinds(input: &str) -> Vec<TokenKind> {
    tokenize(input).iter().map(|t| t.kind).collect()
}

fn lens(input: &str) -> Vec<u32> {
    tokenize(input).iter().map(|t| t.len).collect()
}

#[test]
fn word() {
    assert_eq!(kinds("basic"), vec![Word]);
    assert_eq!(kinds("👀"), vec![Word]);
    assert_eq!(kinds("👀more"), vec![Word]);
    assert_eq!(kinds("thing👀more"), vec![Word]);

    assert_eq!(kinds("two words"), vec![Word, Whitespace, Word]);
    assert_eq!(kinds("word\nanother"), vec![Word, Newline, Word]);

    // composed emojis more than one char
    assert_eq!(kinds("👩🏿‍🔬"), vec![Word]);
    assert_eq!(kinds("\u{1F1EA}\u{1F1F8}"), vec![Word]);
    assert_eq!(kinds("thing👩🏿‍🔬more"), vec![Word]);
    assert_eq!(kinds("thing👩🏿‍🔬more"), vec![Word]);
}

#[test]
fn number() {
    assert_eq!(kinds("1"), vec![Int]);
    assert_eq!(kinds("0"), vec![Int]);
    assert_eq!(kinds("01"), vec![Word]);
    assert_eq!(kinds("01.3"), vec![Word]);
    assert_eq!(kinds("1.3"), vec![Float]);
    assert_eq!(kinds(".3"), vec![Float]);
    assert_eq!(kinds("0.3"), vec![Float]);
    assert_eq!(kinds("0.03"), vec![Float]);
    assert_eq!(kinds("{.3}"), vec![OpenBrace, Float, CloseBrace]);
    assert_eq!(kinds("phraseends.3"), vec![Word, Word, Int]);
}

#[test]
fn comment() {
    assert_eq!(kinds("-- a line comment"), vec![LineComment]);
    assert_eq!(kinds("[- a block comment -]"), vec![BlockComment]);
    assert_eq!(
        kinds("a word [- then comment -] the more"),
        vec![
            Word,
            Whitespace,
            Word,
            Whitespace,
            BlockComment,
            Whitespace,
            Word,
            Whitespace,
            Word
        ]
    );
    assert_eq!(
        kinds("word -- and line comment"),
        vec![Word, Whitespace, LineComment]
    );
    assert_eq!(
        kinds("word -- and line comment\nmore"),
        vec![Word, Whitespace, LineComment, Newline, Word]
    );
    assert_eq!(
        kinds("word [- non closed block\ncomment"),
        vec![Word, Whitespace, BlockComment]
    );
}

#[test]
fn test_component() {
    assert_eq!(kinds("@basic"), vec![At, Word]);
    assert_eq!(kinds("#basic"), vec![TokenKind::Hash, Word]);
    assert_eq!(kinds("~basic"), vec![Tilde, Word]);
    assert_eq!(kinds("@single word"), vec![At, Word, Whitespace, Word]);
    assert_eq!(
        kinds("@multi word{}"),
        vec![At, Word, Whitespace, Word, OpenBrace, CloseBrace]
    );
    assert_eq!(kinds("@qty{3}"), vec![At, Word, OpenBrace, Int, CloseBrace]);
    assert_eq!(
        kinds("@qty{3}(note)"),
        vec![At, Word, OpenBrace, Int, CloseBrace, OpenParen, Word, CloseParen]
    );
}

#[test]
fn recipe() {
    const S: TokenKind = TokenKind::Whitespace;
    const L: TokenKind = TokenKind::Newline;
    let input = r#"
>> key: value
Just let him cook.

Use @sauce{100%ml} and @love.
"#;
    let expected = vec![
        L,
        MetadataStart, S, Word, Colon, S, Word, L,
        Word, S, Word, S, Word, S, Word, Word, L,
        L,
        Word, S, At, Word, OpenBrace, Int, Percent, Word, CloseBrace, S, Word, S, At, Word, Word, L
    ];
    assert_eq!(kinds(input), expected);
}

#[test]
fn token_lengths_are_bytes() {
    // "ñ" takes two bytes, "👀" four
    assert_eq!(lens("añb 👀"), vec![4, 1, 4]);
    assert_eq!(lens("\r\n\n"), vec![2, 1]);
    assert_eq!(lens(">>x"), vec![2, 1]);
}

#[test]
fn escapes_and_stray_characters() {
    assert_eq!(kinds("\\@a"), vec![Escaped, Word]);
    assert_eq!(lens("\\@a"), vec![2, 1]);
    assert_eq!(kinds("\\"), vec![Escaped]);
    assert_eq!(kinds("a\rb"), vec![Word, Word, Word]);
    assert_eq!(kinds("1."), vec![Word]);
    assert_eq!(kinds("[-]x"), vec![BlockComment]);
    assert_eq!(kinds("[--]x"), vec![BlockComment, Word]);
}

#[test]
fn tokens_cover_the_input() {
    let input = "Use @sauce{100%ml} and @love.\n-- comment\n[- block -] ~{2 min}";
    let total: u32 = tokenize(input).iter().map(|t| t.len).sum();
    assert_eq!(total as usize, input.len());
    assert!(tokenize(input).iter().all(|t| t.len > 0 && t.kind != Eof));
    assert!(tokenize("").is_empty());
}
