use script_lang::lexer::{tokenise, Token, TokenKind};

fn kinds_of(tokens: &[Token]) -> Vec<TokenKind> {
    tokens.iter().map(|t| t.kind).collect()
}

fn texts_of(tokens: &[Token]) -> Vec<Option<String>> {
    tokens.iter().map(|t| t.value.clone()).collect()
}

#[test]
fn blank_source_gives_only_end_of_input() {
    for src in ["", " ", "   \t\n  ", "\r\n\u{a0}\u{3000}"] {
        let tokens = tokenise(src.to_string());
        assert_eq!(tokens.len(), 1);
        assert_eq!(tokens[0].kind, TokenKind::Eof);
        assert_eq!(tokens[0].value, None);
    }
}

#[test]
fn keyword_and_operator_spellings_round_trip() {
    let tokens = tokenise("let while if else = == + += - -= : { }".to_string());
    assert_eq!(
        kinds_of(&tokens),
        vec![
            TokenKind::Let,
            TokenKind::While,
            TokenKind::If,
            TokenKind::Else,
            TokenKind::Eq,
            TokenKind::DoubleEq,
            TokenKind::Plus,
            TokenKind::PlusEq,
            TokenKind::Minus,
            TokenKind::MinusEq,
            TokenKind::Colon,
            TokenKind::LBrace,
            TokenKind::RBrace,
            TokenKind::Eof,
        ]
    );
    assert_eq!(tokens[0].value, Some("let".to_string()));
    assert_eq!(tokens[9].value, Some("-=".to_string()));
}

#[test]
fn spellings_separated_by_mixed_whitespace() {
    let tokens = tokenise("\twhile\n\n{\t}  ".to_string());
    assert_eq!(
        kinds_of(&tokens),
        vec![TokenKind::While, TokenKind::LBrace, TokenKind::RBrace, TokenKind::Eof]
    );
}

#[test]
fn digit_run_is_one_integer_literal() {
    for (src, digits) in [("12345", "12345"), ("  007 ", "007"), ("\n99999999999999999999\t", "99999999999999999999")] {
        let tokens = tokenise(src.to_string());
        assert_eq!(kinds_of(&tokens), vec![TokenKind::IntLiteral, TokenKind::Eof]);
        assert_eq!(tokens[0].value, Some(digits.to_string()));
    }
}

#[test]
fn word_starting_with_digit_is_integer_literal() {
    let tokens = tokenise("5x".to_string());
    assert_eq!(kinds_of(&tokens), vec![TokenKind::IntLiteral, TokenKind::Eof]);
    assert_eq!(tokens[0].value, Some("5x".to_string()));
}

#[test]
fn only_whitespace_separates_tokens() {
    let tokens = tokenise("x=1".to_string());
    assert_eq!(kinds_of(&tokens), vec![TokenKind::Identifier, TokenKind::Eof]);
    assert_eq!(tokens[0].value, Some("x=1".to_string()));
}

#[test]
fn near_keywords_are_identifiers() {
    let tokens = tokenise("lets whilex === +- e".to_string());
    assert_eq!(
        kinds_of(&tokens),
        vec![
            TokenKind::Identifier,
            TokenKind::Identifier,
            TokenKind::Identifier,
            TokenKind::Identifier,
            TokenKind::Identifier,
            TokenKind::Eof,
        ]
    );
}

#[test]
fn declaration_tokens_carry_text() {
    let tokens = tokenise("let count = 42".to_string());
    assert_eq!(
        kinds_of(&tokens),
        vec![
            TokenKind::Let,
            TokenKind::Identifier,
            TokenKind::Eq,
            TokenKind::IntLiteral,
            TokenKind::Eof,
        ]
    );
    assert_eq!(
        texts_of(&tokens),
        vec![
            Some("let".to_string()),
            Some("count".to_string()),
            Some("=".to_string()),
            Some("42".to_string()),
            None,
        ]
    );
}

#[test]
fn non_ascii_text_is_split_by_characters() {
    let tokens = tokenise("let\u{3000}größe = 1".to_string());
    assert_eq!(tokens[1].kind, TokenKind::Identifier);
    assert_eq!(tokens[1].value, Some("größe".to_string()));
    assert_eq!(tokens.len(), 5);
}

#[test]
fn retokenising_rebuilt_text_keeps_tokens() {
    let src = "  let x = 5\nwhile x == 1 {\tx + 1 }  y=2 3z ";
    let first = tokenise(src.to_string());
    let texts: Vec<String> = first[..first.len() - 1]
        .iter()
        .map(|t| t.value.clone().unwrap())
        .collect();
    let second = tokenise(texts.join(" "));
    assert_eq!(kinds_of(&first), kinds_of(&second));
    assert_eq!(texts_of(&first), texts_of(&second));
}

#[test]
fn token_new_keeps_fields() {
    let t = Token::new(TokenKind::Identifier, Some("abc".to_string()));
    assert_eq!(t.kind, TokenKind::Identifier);
    assert_eq!(t.value, Some("abc".to_string()));
}
