use jolang::lexer::{KeywordType, Lexer, TokenKind};
use jolang::source::SourceBuffer;

fn buffer(text: &str) -> SourceBuffer {
    SourceBuffer::new(String::from("test.jol"), String::from(text))
}

fn kinds(buf: &SourceBuffer) -> Vec<TokenKind> {
    Lexer::new(buf)
        .tokens()
        .into_iter()
        .map(|x| {
            assert!(x.is_ok());
            x.ok().map(|x| x.kind).unwrap()
        })
        .collect()
}

fn maybe_kinds(buf: &SourceBuffer) -> Vec<(bool, TokenKind)> {
    Lexer::new(buf)
        .tokens()
        .into_iter()
        .map(|x| x.ok())
        .map(|x| (x.is_none(), x.map_or(TokenKind::Int, |x| x.kind)))
        .collect()
}

#[test]
fn lexer_test_single_char() {
    let buf = buffer("{}();:+*/-,=><");
    let tokens = vec![
        TokenKind::LCurly,
        TokenKind::RCurly,
        TokenKind::LParan,
        TokenKind::RParan,
        TokenKind::Semicolon,
        TokenKind::Colon,
        TokenKind::Plus,
        TokenKind::Times,
        TokenKind::Divider,
        TokenKind::Minus,
        TokenKind::Comma,
        TokenKind::Equal,
        TokenKind::Greater,
        TokenKind::Lesser,
    ];
    assert_eq!(kinds(&buf), tokens);
}

#[test]
fn lexer_test_keywords() {
    let buf = buffer("if else while loop return break continue let");
    let keyword = vec![
        TokenKind::Keyword(KeywordType::If),
        TokenKind::Keyword(KeywordType::Else),
        TokenKind::Keyword(KeywordType::While),
        TokenKind::Keyword(KeywordType::Loop),
        TokenKind::Keyword(KeywordType::Return),
        TokenKind::Keyword(KeywordType::Break),
        TokenKind::Keyword(KeywordType::Continue),
        TokenKind::Keyword(KeywordType::Let),
    ];
    assert_eq!(kinds(&buf), keyword);
}

#[test]
fn lexer_test_ident() {
    let buf = buffer("_ll dqd /* sss */ ll6 ll_k_5 ssqdq");
    let tokens: Vec<_> = vec![
        Some(TokenKind::Ident),
        Some(TokenKind::Ident),
        Some(TokenKind::Ident),
        Some(TokenKind::Ident),
        Some(TokenKind::Ident),
    ]
    .iter()
    .map(|x| (x.is_none(), x.clone().unwrap_or(TokenKind::Int)))
    .collect();
    assert_eq!(maybe_kinds(&buf), tokens);
}

#[test]
fn lexer_test_two_char() {
    let buf = buffer("== != >= <= << >> ");
    let tokens = vec![
        TokenKind::DoubleEqual,
        TokenKind::NotEqual,
        TokenKind::GreaterEqual,
        TokenKind::LesserEqual,
        TokenKind::LShift,
        TokenKind::RShift,
    ];
    assert_eq!(kinds(&buf), tokens);
}

#[test]
fn test_unicode_ident() {
    let buf = buffer("я_не_говорю_по_русски 😄 私も彼らも日本語を話せません lé ù");
    let tokens: Vec<_> = vec![
        Some(TokenKind::Ident),
        None,
        Some(TokenKind::Ident),
        Some(TokenKind::Ident),
        Some(TokenKind::Ident),
    ]
    .iter()
    .map(|x| (x.is_none(), x.clone().unwrap_or(TokenKind::Int)))
    .collect();
    assert_eq!(maybe_kinds(&buf), tokens);
}

#[test]
fn test_integer_literral() {
    let buf = buffer("1234 0xe0a8 0b11010100");
    let tokens = vec![TokenKind::Int, TokenKind::Int, TokenKind::Int];
    assert_eq!(kinds(&buf), tokens);
}

#[test]
fn test_mixed_tokens() {
    let buf = buffer("let _n = 0;// test commant\n _n = _n + 1; if (_n != 1) {return 0}\n /* a block comment\n// this is a comment in a comment and should do nothing\n*/ let test : i64 = 0; while (1) { test = input();\n print(test); } ");
    let tokens = vec![
        TokenKind::Keyword(KeywordType::Let),
        TokenKind::Ident,
        TokenKind::Equal,
        TokenKind::Int,
        TokenKind::Semicolon,
        TokenKind::Ident,
        TokenKind::Equal,
        TokenKind::Ident,
        TokenKind::Plus,
        TokenKind::Int,
        TokenKind::Semicolon,
        TokenKind::Keyword(KeywordType::If),
        TokenKind::LParan,
        TokenKind::Ident,
        TokenKind::NotEqual,
        TokenKind::Int,
        TokenKind::RParan,
        TokenKind::LCurly,
        TokenKind::Keyword(KeywordType::Return),
        TokenKind::Int,
        TokenKind::RCurly,
        TokenKind::Keyword(KeywordType::Let),
        TokenKind::Ident,
        TokenKind::Colon,
        TokenKind::Ident,
        TokenKind::Equal,
        TokenKind::Int,
        TokenKind::Semicolon,
        TokenKind::Keyword(KeywordType::While),
        TokenKind::LParan,
        TokenKind::Int,
        TokenKind::RParan,
        TokenKind::LCurly,
        TokenKind::Ident,
        TokenKind::Equal,
        TokenKind::Ident,
        TokenKind::LParan,
        TokenKind::RParan,
        TokenKind::Semicolon,
        TokenKind::Ident,
        TokenKind::LParan,
        TokenKind::Ident,
        TokenKind::RParan,
        TokenKind::Semicolon,
        TokenKind::RCurly,
    ];
    assert_eq!(kinds(&buf), tokens);
}

#[test]
fn lexer_spans_and_positions() {
    let buf = buffer("return 0;\nbreak;continue;");
    let toks: Vec<_> = Lexer::new(&buf).tokens().into_iter().map(|t| t.unwrap()).collect();
    let seen: Vec<(&str, usize, usize, usize)> = toks
        .iter()
        .map(|t| (t.as_str(), t.span.start.line, t.span.start.collumn, t.span.size))
        .collect();
    assert_eq!(
        seen,
        vec![
            ("return", 1, 1, 6),
            ("0", 1, 8, 1),
            (";", 1, 9, 1),
            ("break", 2, 1, 5),
            (";", 2, 6, 1),
            ("continue", 2, 7, 8),
            (";", 2, 15, 1),
        ]
    );
}

#[test]
fn lexer_unicode_span_size_is_in_bytes() {
    let buf = buffer("lé");
    let toks = Lexer::new(&buf).tokens();
    let t = toks[0].as_ref().unwrap();
    assert_eq!(t.as_str(), "lé");
    assert_eq!(t.span.size, 3);
}

#[test]
fn lexer_bad_token_error() {
    let buf = buffer("a ! b");
    let toks = Lexer::new(&buf).tokens();
    assert_eq!(toks.len(), 3);
    let e = toks[1].as_ref().unwrap_err();
    assert_eq!(e.message, "bad token : !");
    assert_eq!(e.line, "a ! b");
    assert_eq!(e.line_number, 1);
    assert_eq!(e.col_number, 3);
    assert_eq!(e.file, "test.jol");
}

#[test]
fn lexer_unterminated_comment() {
    let buf = buffer("x /* never closed");
    let toks = Lexer::new(&buf).tokens();
    assert_eq!(toks.len(), 2);
    let e = toks[1].as_ref().unwrap_err();
    assert_eq!(e.message, "unterminated block comment");
    assert_eq!(e.col_number, 3);
}

#[test]
fn lexer_hex_prefix_without_digits() {
    let buf = buffer("0x 0b2 07");
    let toks: Vec<_> = Lexer::new(&buf).tokens().into_iter().map(|t| t.unwrap()).collect();
    let data: Vec<&str> = toks.iter().map(|t| t.as_str()).collect();
    assert_eq!(data, vec!["0", "x", "0b2", "07"]);
}

#[test]
fn lexer_line_comment_at_end() {
    let buf = buffer("a // trailing");
    assert_eq!(kinds(&buf), vec![TokenKind::Ident]);
}

#[test]
fn source_get_line() {
    let buf = buffer("first\r\nsecond\n\nfourth\n");
    assert_eq!(buf.get_line(1).as_deref(), Some("first"));
    assert_eq!(buf.get_line(2).as_deref(), Some("second"));
    assert_eq!(buf.get_line(3).as_deref(), Some(""));
    assert_eq!(buf.get_line(4).as_deref(), Some("fourth"));
    assert_eq!(buf.get_line(5), None);
}
