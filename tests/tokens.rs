use liblumoc::{tokenize, Spanned, Token, TokenKind};

fn kinds(ts: &[Spanned<Token>]) -> Vec<TokenKind> {
    ts.iter().map(|t| t.1.kind).collect()
}

fn texts(ts: &[Spanned<Token>]) -> Vec<String> {
    ts.iter().map(|t| t.1.content.clone()).collect()
}

#[test]
fn tokenizes_a_function() {
    let ts = tokenize("fn id(x) { x }").ok().expect("valid source");
    assert_eq!(
        kinds(&ts),
        vec![
            TokenKind::KeywordFn,
            TokenKind::SpaceHorizontal,
            TokenKind::IdentifierIdentifier,
            TokenKind::PunctuationLeftParenthesis,
            TokenKind::IdentifierIdentifier,
            TokenKind::PunctuationRightParenthesis,
            TokenKind::SpaceHorizontal,
            TokenKind::PunctuationLeftCurlyBracket,
            TokenKind::SpaceHorizontal,
            TokenKind::IdentifierIdentifier,
            TokenKind::SpaceHorizontal,
            TokenKind::PunctuationRightCurlyBracket,
            TokenKind::Eof,
        ]
    );
    assert_eq!(texts(&ts)[2], "id");
    assert_eq!(ts[2].0.start.offset, 3);
    assert_eq!(ts[2].0.end.offset, 5);
    let last = ts.last().unwrap();
    assert_eq!(last.1.content, "");
    assert_eq!(last.0.start.offset, 14);
    assert_eq!(last.0.end.offset, 14);
}

#[test]
fn longest_tokens_win() {
    let ts = tokenize("a  =>= \r\n_ _x enum enums").ok().unwrap();
    assert_eq!(
        texts(&ts),
        vec!["a", "  ", "=>", "=", " ", "\r\n", "_", " ", "_x", " ", "enum", " ", "enums", ""]
    );
    assert_eq!(ts[2].1.kind, TokenKind::PunctuationsFatArrow);
    assert_eq!(ts[3].1.kind, TokenKind::PunctuationEqualsSign);
    assert_eq!(ts[5].1.kind, TokenKind::SpaceVertical);
    assert_eq!(ts[6].1.kind, TokenKind::IdentifierUnderscore);
    assert_eq!(ts[8].1.kind, TokenKind::IdentifierIdentifier);
    assert_eq!(ts[10].1.kind, TokenKind::KeywordEnum);
    assert_eq!(ts[12].1.kind, TokenKind::IdentifierIdentifier);
}

#[test]
fn keywords_are_recognised() {
    let ts = tokenize("fn let match mut struct").ok().unwrap();
    let words: Vec<TokenKind> = kinds(&ts).into_iter().filter(|k| *k != TokenKind::SpaceHorizontal).collect();
    assert_eq!(
        words,
        vec![
            TokenKind::KeywordFn,
            TokenKind::KeywordLet,
            TokenKind::KeywordMatch,
            TokenKind::KeywordMut,
            TokenKind::KeywordStruct,
            TokenKind::Eof,
        ]
    );
}

#[test]
fn unicode_identifiers_use_xid_properties() {
    let ts = tokenize("αβγ1 é").ok().unwrap();
    assert_eq!(texts(&ts), vec!["αβγ1", " ", "é", ""]);
    assert_eq!(ts[0].1.kind, TokenKind::IdentifierIdentifier);
    assert_eq!(ts[0].0.end.offset, 7);
    assert_eq!(ts[2].0.start.offset, 8);
    assert_eq!(ts[2].0.end.offset, 10);
    assert!(tokenize("1abc").is_err());
}

#[test]
fn lines_and_columns_follow_breaks() {
    let ts = tokenize("ab\ncd").ok().unwrap();
    assert_eq!(ts[0].0.start.line, 1);
    assert_eq!(ts[0].0.end.col, 2);
    assert_eq!(ts[1].1.kind, TokenKind::SpaceVertical);
    assert_eq!(ts[2].0.start.line, 2);
    assert_eq!(ts[2].0.start.col, 0);
    assert_eq!(ts[2].0.start.offset, 3);
    assert_eq!(ts[2].0.end.col, 2);
}

#[test]
fn unknown_characters_stop_tokenizing() {
    let e = tokenize("a €").err().expect("the euro sign starts no token");
    assert_eq!(e.offset, 2);
    let e = tokenize("é\"").err().unwrap();
    assert_eq!(e.offset, 2);
}

#[test]
fn empty_source_has_only_the_end() {
    let ts = tokenize("").ok().unwrap();
    assert_eq!(kinds(&ts), vec![TokenKind::Eof]);
}

#[test]
fn unicode_spaces_are_horizontal() {
    let ts = tokenize("a\u{00A0}\u{2003}\u{3000}b\u{2028}c").ok().unwrap();
    assert_eq!(ts[1].1.kind, TokenKind::SpaceHorizontal);
    assert_eq!(ts[1].1.content, "\u{00A0}\u{2003}\u{3000}");
    assert_eq!(ts[3].1.kind, TokenKind::SpaceVertical);
    assert_eq!(ts[4].0.start.line, 2);
}
