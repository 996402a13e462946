use fsk_core::hashing::{md5_hex, sha256_hex};
use fsk_core::symbols::{position, Analysis, CompletionKind, Lexeme, SymbolKind, Token};

#[test]
fn sha256_of_abc() {
    assert_eq!(
        sha256_hex(b"abc"),
        "ba7816bf8f01cfea414140de5dae2223b00361a396177a9cb410ff61f20015ad"
    );
    assert_eq!(
        sha256_hex(b""),
        "e3b0c44298fc1c149afbf4c8996fb92427ae41e4649b934ca495991b7852b855"
    );
}

#[test]
fn md5_of_abc() {
    assert_eq!(md5_hex(b"abc"), "900150983cd24fb0d6963f7d28e17f72");
    assert_eq!(md5_hex(b""), "d41d8cd98f00b204e9800998ecf8427e");
}

fn lx(token: Token, start: usize, text: &str) -> Lexeme {
    Lexeme { token, start, text: text.to_string() }
}

#[test]
fn declared_symbols_with_positions() {
    let src = "fn main {\n  let x\n}\nclass Point\nconst fn";
    let lexemes = vec![
        lx(Token::Fn, 0, "fn"),
        lx(Token::Identifier, 3, "main"),
        lx(Token::LBrace, 8, "{"),
        lx(Token::Let, 12, "let"),
        lx(Token::Identifier, 16, "x"),
        lx(Token::RBrace, 18, "}"),
        lx(Token::Class, 20, "class"),
        lx(Token::Identifier, 26, "Point"),
        lx(Token::Const, 32, "const"),
        lx(Token::Fn, 38, "fn"),
    ];
    let a = Analysis::new(src.as_bytes(), &lexemes);
    let got: Vec<(String, SymbolKind, u32, u32)> = a
        .symbols
        .iter()
        .map(|s| (s.name.clone(), s.kind, s.line, s.character))
        .collect();
    assert_eq!(
        got,
        vec![
            ("main".to_string(), SymbolKind::Function, 0, 3),
            ("x".to_string(), SymbolKind::Variable, 1, 6),
            ("Point".to_string(), SymbolKind::Class, 3, 6),
        ]
    );
}

#[test]
fn keyword_consumes_following_token() {
    let src = "fn fn foo";
    let lexemes = vec![
        lx(Token::Fn, 0, "fn"),
        lx(Token::Fn, 3, "fn"),
        lx(Token::Identifier, 6, "foo"),
    ];
    assert!(Analysis::new(src.as_bytes(), &lexemes).symbols.is_empty());
}

#[test]
fn positions_count_line_feeds() {
    let src = b"ab\ncd\n\nef";
    assert_eq!(position(src, 0), (0, 0));
    assert_eq!(position(src, 4), (1, 1));
    assert_eq!(position(src, 6), (2, 0));
    assert_eq!(position(src, 8), (3, 1));
}

#[test]
fn completions_list_symbols_then_keywords() {
    let src = "class A\nlet b";
    let lexemes = vec![
        lx(Token::Class, 0, "class"),
        lx(Token::Identifier, 6, "A"),
        lx(Token::Let, 8, "let"),
        lx(Token::Identifier, 12, "b"),
    ];
    let items: Vec<(String, CompletionKind)> = Analysis::new(src.as_bytes(), &lexemes)
        .completions()
        .into_iter()
        .map(|c| (c.label, c.kind))
        .collect();
    let keywords = ["fn", "class", "let", "return", "if", "else", "print", "import", "async", "await"];
    assert_eq!(items.len(), 2 + keywords.len());
    assert_eq!(items[0], ("A".to_string(), CompletionKind::Class));
    assert_eq!(items[1], ("b".to_string(), CompletionKind::Variable));
    for (i, kw) in keywords.iter().enumerate() {
        assert_eq!(items[2 + i], (kw.to_string(), CompletionKind::Keyword));
    }
}
