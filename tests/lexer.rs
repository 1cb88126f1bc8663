use discord_script::token::{Token, TokenKind};
use discord_script::tokenizer::{Lexer, TokenizerError};

fn kinds(tokens: &[Token]) -> Vec<TokenKind> {
    tokens.iter().map(|t| t.kind).collect()
}

#[test]
fn every_operator_lexes_to_one_token() {
    let table = vec![
        ("||", TokenKind::Or),
        ("|", TokenKind::Pipe),
        ("[", TokenKind::OpenBracket),
        ("]", TokenKind::CloseBracket),
        ("{", TokenKind::OpenCurly),
        ("}", TokenKind::CloseCurly),
        ("(", TokenKind::OpenParen),
        (")", TokenKind::CloseParen),
        ("==", TokenKind::Equals),
        ("!=", TokenKind::NotEquals),
        ("=", TokenKind::Assignment),
        ("!", TokenKind::Not),
        ("<=", TokenKind::LessEquals),
        ("<", TokenKind::Less),
        (">=", TokenKind::GreaterEquals),
        (">", TokenKind::Greater),
        ("&&", TokenKind::And),
        ("..", TokenKind::DotDot),
        (".", TokenKind::Dot),
        (";", TokenKind::SemiColon),
        ("::", TokenKind::DoubleColon),
        (":", TokenKind::Colon),
        ("?", TokenKind::Question),
        (",", TokenKind::Comma),
        ("++", TokenKind::PlusPlus),
        ("--", TokenKind::MinusMinus),
        ("+=", TokenKind::PlusEquals),
        ("-=", TokenKind::MinusEquals),
        ("/=", TokenKind::DivideEquals),
        ("*=", TokenKind::MultiplyEquals),
        ("%=", TokenKind::ModEquals),
        ("+", TokenKind::Plus),
        ("-", TokenKind::Minus),
        ("/", TokenKind::Divide),
        ("*", TokenKind::Star),
        ("%", TokenKind::Percent),
    ];
    for (text, kind) in table {
        let tokens = Lexer::tokenize(text.to_string()).unwrap();
        assert_eq!(tokens.len(), 2, "{}", text);
        assert_eq!(tokens[0].kind, kind);
        assert_eq!(tokens[0].value, text);
        assert_eq!(tokens[0].line, 0);
        assert_eq!(tokens[1].kind, TokenKind::Eof);
        assert_eq!(tokens[1].line, text.len());
    }
}

#[test]
fn double_equals_is_one_token() {
    let tokens = Lexer::tokenize("==".to_string()).unwrap();
    assert_eq!(kinds(&tokens), vec![TokenKind::Equals, TokenKind::Eof]);
}

#[test]
fn double_dot_is_one_token() {
    let tokens = Lexer::tokenize("..".to_string()).unwrap();
    assert_eq!(kinds(&tokens), vec![TokenKind::DotDot, TokenKind::Eof]);
}

#[test]
fn keyword_let() {
    let tokens = Lexer::tokenize("let".to_string()).unwrap();
    assert_eq!(kinds(&tokens), vec![TokenKind::Let, TokenKind::Eof]);
    assert_eq!(tokens[0].value, "let");
}

#[test]
fn longer_word_is_identifier() {
    let tokens = Lexer::tokenize("lets".to_string()).unwrap();
    assert_eq!(kinds(&tokens), vec![TokenKind::Identifier, TokenKind::Eof]);
    assert_eq!(tokens[0].value, "lets");
}

#[test]
fn all_keywords() {
    let words = vec![
        ("let", TokenKind::Let),
        ("const", TokenKind::Const),
        ("struct", TokenKind::Struct),
        ("import", TokenKind::Import),
        ("fn", TokenKind::Fn),
        ("if", TokenKind::If),
        ("else", TokenKind::Else),
        ("while", TokenKind::While),
        ("for", TokenKind::For),
        ("in", TokenKind::In),
        ("match", TokenKind::Match),
        ("pub", TokenKind::Pub),
        ("return", TokenKind::Return),
        ("continue", TokenKind::Continue),
        ("break", TokenKind::Break),
    ];
    for (w, k) in words {
        assert_eq!(TokenKind::is_keyword(w), Some(k));
    }
    assert_eq!(TokenKind::is_keyword("true"), None);
    assert_eq!(TokenKind::is_keyword("Let"), None);
}

#[test]
fn string_literal_drops_quotes() {
    let tokens = Lexer::tokenize("\"a b\";".to_string()).unwrap();
    assert_eq!(kinds(&tokens), vec![TokenKind::String, TokenKind::SemiColon, TokenKind::Eof]);
    assert_eq!(tokens[0].value, "a b");
    assert_eq!(tokens[1].line, 5);
}

#[test]
fn numbers_with_and_without_fraction() {
    let tokens = Lexer::tokenize("12 3.25 4.".to_string()).unwrap();
    assert_eq!(
        kinds(&tokens),
        vec![TokenKind::Number, TokenKind::Number, TokenKind::Number, TokenKind::Dot, TokenKind::Eof]
    );
    assert_eq!(tokens[0].value, "12");
    assert_eq!(tokens[1].value, "3.25");
    assert_eq!(tokens[1].line, 3);
    assert_eq!(tokens[2].value, "4");
}

#[test]
fn comments_and_white_space_are_skipped() {
    let tokens = Lexer::tokenize("a // note\n\tb".to_string()).unwrap();
    assert_eq!(kinds(&tokens), vec![TokenKind::Identifier, TokenKind::Identifier, TokenKind::Eof]);
    assert_eq!(tokens[1].value, "b");
    assert_eq!(tokens[1].line, 11);
}

#[test]
fn host_marker_is_part_of_a_name() {
    let tokens = Lexer::tokenize("debug_reply!(x)".to_string()).unwrap();
    assert_eq!(tokens[0].kind, TokenKind::Identifier);
    assert_eq!(tokens[0].value, "debug_reply!");
    assert_eq!(tokens[1].kind, TokenKind::OpenParen);
}

#[test]
fn empty_source_is_only_the_end() {
    let tokens = Lexer::tokenize(String::new()).unwrap();
    assert_eq!(kinds(&tokens), vec![TokenKind::Eof]);
    assert_eq!(tokens[0].line, 0);
}

#[test]
fn unknown_character_is_rejected_at_its_offset() {
    match Lexer::tokenize("ab #".to_string()) {
        Err(TokenizerError::InvalidToken(pos)) => assert_eq!(pos, 3),
        other => panic!("unexpected {:?}", other),
    }
}

#[test]
fn offsets_count_bytes() {
    let tokens = Lexer::tokenize("\"é\" x".to_string()).unwrap();
    assert_eq!(tokens[0].value, "é");
    assert_eq!(tokens[1].line, 5);
    match Lexer::tokenize("\u{00a0}é".to_string()) {
        Err(TokenizerError::InvalidToken(pos)) => assert_eq!(pos, 2),
        other => panic!("unexpected {:?}", other),
    }
}

#[test]
fn unterminated_string_is_rejected() {
    match Lexer::tokenize("x \"abc".to_string()) {
        Err(TokenizerError::InvalidToken(pos)) => assert_eq!(pos, 2),
        other => panic!("unexpected {:?}", other),
    }
}
