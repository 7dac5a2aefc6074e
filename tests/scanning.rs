use lexer::{keyword_to_token, Lexer, LexerError, Token};

fn scan_one(text: &str) -> Result<Token, LexerError> {
    Lexer::new(text.to_string()).next_token()
}

#[test]
fn empty_input_is_end() {
    let mut l = Lexer::new(String::new());
    assert_eq!(l.next_token(), Ok(Token::EOF));
    assert_eq!(l.next_token(), Ok(Token::EOF));
}

#[test]
fn blank_input_is_end() {
    let mut l = Lexer::new(" \t\r\n \u{a0}\u{3000} ".to_string());
    assert_eq!(l.next_token(), Ok(Token::EOF));
    assert_eq!(l.next_token(), Ok(Token::EOF));
    assert_eq!(l.next_token(), Ok(Token::EOF));
}

#[test]
fn each_punctuation_then_end() {
    let cases = [
        (",", Token::Comma),
        ("-", Token::Minus),
        ("+", Token::Plus),
        ("*", Token::Times),
        ("(", Token::LParen),
        (")", Token::RParen),
        ("{", Token::LBrace),
        ("}", Token::RBrace),
        ("[", Token::LBrack),
        ("]", Token::RBrack),
        ("%", Token::Mod),
        (";", Token::SemiColon),
        (":", Token::Colon),
        (".", Token::Period),
        ("^", Token::Pow),
    ];
    for (text, token) in cases {
        let mut l = Lexer::new(text.to_string());
        assert_eq!(l.next_token(), Ok(token));
        assert_eq!(l.next_token(), Ok(Token::EOF));
    }
}

#[test]
fn and_or_pairs() {
    assert_eq!(scan_one("&&"), Ok(Token::And));
    assert_eq!(scan_one("||"), Ok(Token::Or));
}

#[test]
fn and_or_wrong_second_char() {
    assert_eq!(scan_one("&x"), Err(LexerError::ExpectedChar('&', 'x')));
    assert_eq!(scan_one("& &"), Err(LexerError::ExpectedChar('&', ' ')));
    assert_eq!(scan_one("&|"), Err(LexerError::ExpectedChar('&', '|')));
    assert_eq!(scan_one("|x"), Err(LexerError::ExpectedChar('|', 'x')));
    assert_eq!(scan_one("| &"), Err(LexerError::ExpectedChar('|', ' ')));
}

#[test]
fn and_or_at_end_of_input() {
    assert_eq!(scan_one("&"), Err(LexerError::UnexpectedEndOfFile));
    assert_eq!(scan_one("  |"), Err(LexerError::UnexpectedEndOfFile));
}

#[test]
fn operators_alone_at_end() {
    assert_eq!(scan_one("="), Ok(Token::Assign));
    assert_eq!(scan_one("<"), Ok(Token::Lt));
    assert_eq!(scan_one(">"), Ok(Token::Gt));
    assert_eq!(scan_one("!"), Ok(Token::Not));
}

#[test]
fn operators_followed_by_other_char() {
    let mut l = Lexer::new("=<>!x".to_string());
    assert_eq!(l.next_token(), Ok(Token::Assign));
    assert_eq!(l.next_token(), Ok(Token::Lt));
    assert_eq!(l.next_token(), Ok(Token::Gt));
    assert_eq!(l.next_token(), Ok(Token::Not));
    assert_eq!(l.next_token(), Ok(Token::Identifier("x".to_string())));
    assert_eq!(l.next_token(), Ok(Token::EOF));
}

#[test]
fn equals_after_equals() {
    let mut l = Lexer::new("===".to_string());
    assert_eq!(l.next_token(), Ok(Token::Equal));
    assert_eq!(l.next_token(), Ok(Token::Assign));
    assert_eq!(l.next_token(), Ok(Token::EOF));
}

#[test]
fn string_keeps_text_verbatim() {
    assert_eq!(
        scan_one("  \"a // b /* c\\n\" "),
        Ok(Token::LiteralString("a // b /* c\\n".to_string()))
    );
    assert_eq!(scan_one("\"héllo wörld\""), Ok(Token::LiteralString("héllo wörld".to_string())));
}

#[test]
fn unterminated_string() {
    assert_eq!(scan_one("\"Hello"), Err(LexerError::UnexpectedEndOfFile));
    assert_eq!(scan_one("\""), Err(LexerError::UnexpectedEndOfFile));
}

#[test]
fn string_then_next_token() {
    let mut l = Lexer::new("\"a\"\"b\";".to_string());
    assert_eq!(l.next_token(), Ok(Token::LiteralString("a".to_string())));
    assert_eq!(l.next_token(), Ok(Token::LiteralString("b".to_string())));
    assert_eq!(l.next_token(), Ok(Token::SemiColon));
    assert_eq!(l.next_token(), Ok(Token::EOF));
}

#[test]
fn line_comment_is_skipped() {
    assert_eq!(scan_one("// comment\n42"), Ok(Token::LiteralInt(42)));
}

#[test]
fn line_comment_at_end_is_end() {
    let mut l = Lexer::new("+ // trailing".to_string());
    assert_eq!(l.next_token(), Ok(Token::Plus));
    assert_eq!(l.next_token(), Ok(Token::EOF));
}

#[test]
fn block_comment_is_skipped() {
    assert_eq!(scan_one("/* a * b */+"), Ok(Token::Plus));
    assert_eq!(scan_one("/**/-"), Ok(Token::Minus));
    assert_eq!(scan_one("/***/ -"), Ok(Token::Minus));
}

#[test]
fn comments_in_a_row() {
    let mut l = Lexer::new("// one\n/* two */ // three\n/* four\n */ x".to_string());
    assert_eq!(l.next_token(), Ok(Token::Identifier("x".to_string())));
    assert_eq!(l.next_token(), Ok(Token::EOF));
}

#[test]
fn unterminated_block_comment() {
    assert_eq!(scan_one("/* never closed"), Err(LexerError::UnexpectedEndOfFile));
    assert_eq!(scan_one("/* almost *"), Err(LexerError::UnexpectedEndOfFile));
    assert_eq!(scan_one("/*/"), Err(LexerError::UnexpectedEndOfFile));
}

#[test]
fn slash_alone_is_div() {
    let mut l = Lexer::new("a / b /".to_string());
    assert_eq!(l.next_token(), Ok(Token::Identifier("a".to_string())));
    assert_eq!(l.next_token(), Ok(Token::Div));
    assert_eq!(l.next_token(), Ok(Token::Identifier("b".to_string())));
    assert_eq!(l.next_token(), Ok(Token::Div));
    assert_eq!(l.next_token(), Ok(Token::EOF));
}

#[test]
fn keywords_ignore_case() {
    assert_eq!(scan_one("IF"), Ok(Token::If));
    assert_eq!(scan_one("If"), Ok(Token::If));
    assert_eq!(scan_one("if"), Ok(Token::If));
    assert_eq!(scan_one("ReTuRn"), Ok(Token::Return));
    assert_eq!(scan_one("WHILE"), Ok(Token::While));
}

#[test]
fn unknown_word_is_identifier() {
    assert_eq!(scan_one("foobar"), Ok(Token::Identifier("foobar".to_string())));
    assert_eq!(scan_one("FooBar"), Ok(Token::Identifier("FooBar".to_string())));
    assert_eq!(scan_one("if2"), Ok(Token::Identifier("if2".to_string())));
    assert_eq!(scan_one("iff"), Ok(Token::Identifier("iff".to_string())));
}

#[test]
fn word_stops_at_non_alphanumeric() {
    let mut l = Lexer::new("abc_def".to_string());
    assert_eq!(l.next_token(), Ok(Token::Identifier("abc".to_string())));
    assert_eq!(l.next_token(), Err(LexerError::InvalidChar('_')));
}

#[test]
fn non_ascii_word() {
    assert_eq!(scan_one("été"), Ok(Token::Identifier("été".to_string())));
}

#[test]
fn keyword_sequence_then_end() {
    let mut l = Lexer::new("if let for else loop true while false return".to_string());
    let expected = [
        Token::If,
        Token::Let,
        Token::For,
        Token::Else,
        Token::Loop,
        Token::True,
        Token::While,
        Token::False,
        Token::Return,
        Token::EOF,
    ];
    for token in expected {
        assert_eq!(l.next_token(), Ok(token));
    }
}

#[test]
fn end_repeats() {
    let mut l = Lexer::new("x".to_string());
    assert_eq!(l.next_token(), Ok(Token::Identifier("x".to_string())));
    for _ in 0..5 {
        assert_eq!(l.next_token(), Ok(Token::EOF));
    }
}

#[test]
fn integer_literals() {
    assert_eq!(scan_one("42"), Ok(Token::LiteralInt(42)));
    assert_eq!(scan_one("0"), Ok(Token::LiteralInt(0)));
    assert_eq!(scan_one("007"), Ok(Token::LiteralInt(7)));
    assert_eq!(scan_one("9223372036854775807"), Ok(Token::LiteralInt(i64::MAX)));
    let mut l = Lexer::new("12+3".to_string());
    assert_eq!(l.next_token(), Ok(Token::LiteralInt(12)));
    assert_eq!(l.next_token(), Ok(Token::Plus));
    assert_eq!(l.next_token(), Ok(Token::LiteralInt(3)));
    assert_eq!(l.next_token(), Ok(Token::EOF));
}

#[test]
fn integer_parse_failures() {
    assert_eq!(scan_one("9223372036854775808"), Err(LexerError::ParseInt));
    assert_eq!(scan_one("1.5"), Err(LexerError::ParseInt));
    assert_eq!(scan_one("1_000"), Err(LexerError::ParseInt));
    assert_eq!(scan_one("²"), Err(LexerError::ParseInt));
}

#[test]
fn invalid_characters() {
    assert_eq!(scan_one("#"), Err(LexerError::InvalidChar('#')));
    assert_eq!(scan_one("  @x"), Err(LexerError::InvalidChar('@')));
    assert_eq!(scan_one("$"), Err(LexerError::InvalidChar('$')));
}

#[test]
fn keyword_lookup() {
    assert_eq!(keyword_to_token("if"), Some(Token::If));
    assert_eq!(keyword_to_token("LET"), Some(Token::Let));
    assert_eq!(keyword_to_token("For"), Some(Token::For));
    assert_eq!(keyword_to_token("eLsE"), Some(Token::Else));
    assert_eq!(keyword_to_token("LOOP"), Some(Token::Loop));
    assert_eq!(keyword_to_token("True"), Some(Token::True));
    assert_eq!(keyword_to_token("whilE"), Some(Token::While));
    assert_eq!(keyword_to_token("FALSE"), Some(Token::False));
    assert_eq!(keyword_to_token("Return"), Some(Token::Return));
    assert_eq!(keyword_to_token("foobar"), None);
    assert_eq!(keyword_to_token(""), None);
    assert_eq!(keyword_to_token("i"), None);
}

#[test]
fn take_while_or_none_reaches_end() {
    let mut l = Lexer::new("abc".to_string());
    assert_eq!(l.take_while_or_none(|c| c.is_alphabetic()), "abc");
    assert_eq!(l.next_token(), Ok(Token::EOF));
}

#[test]
fn take_while_stops_before_predicate_fails() {
    let mut l = Lexer::new("ab;c".to_string());
    assert_eq!(l.take_while(|c| c != ';'), Ok("ab".to_string()));
    assert_eq!(l.next_token(), Ok(Token::SemiColon));
    let mut m = Lexer::new("abc".to_string());
    assert_eq!(m.take_while(|c| c != ';'), Err(LexerError::UnexpectedEndOfFile));
}

#[test]
fn skip_whitespace_moves_to_token() {
    let mut l = Lexer::new(" \n\t;".to_string());
    l.skip_whitespace();
    assert_eq!(l.take_while_or_none(|c| c == ';'), ";");
}
