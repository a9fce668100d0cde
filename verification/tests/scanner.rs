use rlox::scanner::{scan_tokens, Scanner, TokenType};

#[test]
fn test_skipping_whitespace_and_comments_before_more_tokens() {
    let test_cases = vec![
        ("a", 0),
        ("  a", 2),
        (" \t  a", 4),
        (" \t  +", 4),
        ("// Test a comment\nabc", 18),
        (" // Test a comment\n+", 19),
    ];
    for (contents, expected_skip_count) in test_cases {
        let mut scanner = Scanner::new(contents);
        scanner.skip_whitespace_and_comments();

        assert_eq!(
            scanner.current_offset(),
            expected_skip_count,
            "Expected to skip {} bytes for '{}' but was {}",
            expected_skip_count,
            contents,
            scanner.current_offset()
        );
    }
}

#[test]
fn test_skipping_whitespace_and_comments_before_eof() {
    let test_cases = vec![
        ("", 0),
        ("  ", 2),
        (" \t  ", 4),
        ("// Test a comment\n", 18),
        (" // Test a comment", 18),
    ];
    for (contents, expected_skip_count) in test_cases {
        let mut scanner = Scanner::new(contents);
        scanner.skip_whitespace_and_comments();

        assert_eq!(
            scanner.current_offset(),
            expected_skip_count,
            "Expected to skip {} bytes for '{}' but was {}",
            expected_skip_count,
            contents,
            scanner.current_offset()
        );
    }
}

#[test]
fn test_incrementing_line_count() {
    let test_cases = vec![
        ("", 1),
        ("  ", 1),
        (" \n  ", 2),
        (" \n  a", 2),
        (" \n\n  ", 3),
        ("// Test a comment\n", 2),
        ("// Test a comment\na", 2),
        (" // Test a comment", 1),
    ];
    for (contents, expected_line) in test_cases {
        let mut scanner = Scanner::new(contents);
        scanner.skip_whitespace_and_comments();

        assert_eq!(
            scanner.line(),
            expected_line,
            "Expected line to be {} after '{}' but was {}",
            expected_line,
            contents,
            scanner.line()
        );
    }
}

#[test]
fn test_parse_single_characters() {
    test_parse("(", TokenType::LeftParen, 1);
    test_parse(")", TokenType::RightParen, 1);
    test_parse("{", TokenType::LeftBrace, 1);
    test_parse("}", TokenType::RightBrace, 1);
    test_parse(";", TokenType::Semicolon, 1);
    test_parse(",", TokenType::Comma, 1);
    test_parse(".", TokenType::Dot, 1);
    test_parse("-", TokenType::Minus, 1);
    test_parse("+", TokenType::Plus, 1);
    test_parse("/", TokenType::Slash, 1);
    test_parse("*", TokenType::Star, 1);
}

#[test]
fn test_parse_multiple_characters() {
    test_parse("<", TokenType::Less, 1);
    test_parse(">", TokenType::Greater, 1);
    test_parse("<1", TokenType::Less, 1);
    test_parse(">2", TokenType::Greater, 1);
    test_parse("<=", TokenType::LessEqual, 2);
    test_parse(">=", TokenType::GreaterEqual, 2);
    test_parse("! ", TokenType::Bang, 1);
    test_parse("!=", TokenType::BangEqual, 2);
    test_parse("=", TokenType::Equal, 1);
    test_parse("=1", TokenType::Equal, 1);
    test_parse("==", TokenType::EqualEqual, 2);
}

#[test]
fn test_parse_keywords() {
    test_parse("and", TokenType::And, 3);
    test_parse("class", TokenType::Class, 5);
    test_parse("else", TokenType::Else, 4);
    test_parse("false", TokenType::False, 5);
    test_parse("for", TokenType::For, 3);
    test_parse("fun", TokenType::Fun, 3);
    test_parse("if", TokenType::If, 2);
    test_parse("nil", TokenType::Nil, 3);
    test_parse("or", TokenType::Or, 2);
    test_parse("print", TokenType::Print, 5);
    test_parse("return", TokenType::Return, 6);
    test_parse("super", TokenType::Super, 5);
    test_parse("this", TokenType::This, 4);
    test_parse("true", TokenType::True, 4);
    test_parse("var", TokenType::Var, 3);
    test_parse("while", TokenType::While, 5);
}

#[test]
fn test_parse_identifiers() {
    let test_cases = vec!["and1", "true_", "my_var", "my_var_2"];
    for test_case in test_cases {
        test_parse(test_case, TokenType::Identifier, test_case.len());
    }
}

#[test]
fn test_parsing_expression() {
    let source = "1 + 2";
    let mut scanner = Scanner::new(source);
    {
        let token = scanner.scan_token();
        assert_eq!(token.source, "1", "Expected first token to be 1");
        assert_eq!(token.token_type, TokenType::Number, "Expected first token to be a number");
    }
    {
        let token = scanner.scan_token();
        assert_eq!(token.source, "+", "Expected second token to be +");
        assert_eq!(token.token_type, TokenType::Plus, "Expected second token to be plus");
    }
    {
        let token = scanner.scan_token();
        assert_eq!(token.source, "2", "Expected third token to be 2");
        assert_eq!(token.token_type, TokenType::Number, "Expected third token to be a number");
    }
    {
        let token = scanner.scan_token();
        assert_eq!(token.token_type, TokenType::Eof, "Expected Eof token");
    }
}

fn test_parse(source: &'static str, token_type: TokenType, end: usize) {
    let mut scanner = Scanner::new(source);
    {
        let token = scanner.scan_token();
        assert_eq!(
            token.token_type, token_type,
            "Expected to get type {:?} but was {:?} when parsing '{}'",
            token_type, token.token_type, source
        );
    }
    let new_offset = scanner.current_offset();
    assert_eq!(
        new_offset, end,
        "Expected offset to be {} but was {} when parsing '{}'",
        end, new_offset, source
    );
}

fn kinds(source: &str) -> Vec<TokenType> {
    scan_tokens(source).iter().map(|token| token.token_type).collect()
}

fn lexemes(source: &str) -> Vec<&str> {
    scan_tokens(source).iter().map(|token| token.source).collect()
}

#[test]
fn test_keywords_are_recognised_anywhere_in_the_source() {
    assert_eq!(
        kinds("!nil and\ttrue"),
        vec![TokenType::Bang, TokenType::Nil, TokenType::And, TokenType::True, TokenType::Eof]
    );
    assert_eq!(kinds("  while"), vec![TokenType::While, TokenType::Eof]);
    assert_eq!(kinds(" f fa fals falsey t tr"), vec![
        TokenType::Identifier,
        TokenType::Identifier,
        TokenType::Identifier,
        TokenType::Identifier,
        TokenType::Identifier,
        TokenType::Identifier,
        TokenType::Eof
    ]);
}

#[test]
fn test_scan_tokens_ends_with_single_eof() {
    for source in ["", "   ", "1 + 2", "// only a comment", "\"open", "a.b(c);"] {
        let tokens = scan_tokens(source);
        let eofs = tokens.iter().filter(|token| token.token_type == TokenType::Eof).count();
        assert_eq!(eofs, 1, "source '{}'", source);
        assert_eq!(tokens.last().unwrap().token_type, TokenType::Eof);
    }
}

#[test]
fn test_lexemes_are_slices_of_the_source_in_order() {
    let source = "var x1 = (12.5 >= y) // tail\n \"two\nlines\" != nil;";
    let base = source.as_ptr() as usize;
    let mut previous_start = 0;
    for token in scan_tokens(source) {
        assert_ne!(token.token_type, TokenType::Error);
        let start = token.source.as_ptr() as usize - base;
        assert!(start >= previous_start);
        assert_eq!(&source[start..start + token.source.len()], token.source);
        previous_start = start;
    }
    assert_eq!(
        lexemes(source),
        vec!["var", "x1", "=", "(", "12.5", ">=", "y", ")", "\"two\nlines\"", "!=", "nil", ";", ""]
    );
}

#[test]
fn test_string_literal_keeps_quotes_and_counts_lines() {
    let tokens = scan_tokens("\"a\nb\" x");
    assert_eq!(tokens[0].token_type, TokenType::String);
    assert_eq!(tokens[0].source, "\"a\nb\"");
    assert_eq!(tokens[0].line, 2);
    assert_eq!(tokens[1].token_type, TokenType::Identifier);
    assert_eq!(tokens[1].line, 2);
}

#[test]
fn test_unterminated_string_is_an_error_token() {
    let tokens = scan_tokens("\"abc");
    assert_eq!(tokens[0].token_type, TokenType::Error);
    assert_eq!(tokens[0].source, "Unterminated string");
    assert_eq!(tokens[1].token_type, TokenType::Eof);
    assert_eq!(tokens.len(), 2);
}

#[test]
fn test_unexpected_character_is_an_error_token() {
    let tokens = scan_tokens("1 @ 2");
    assert_eq!(tokens[1].token_type, TokenType::Error);
    assert_eq!(tokens[1].source, "Unexpected character");
    assert_eq!(tokens[2].token_type, TokenType::Number);
    assert_eq!(tokens[2].source, "2");
}

#[test]
fn test_characters_outside_ascii() {
    let tokens = scan_tokens("\u{e9} \u{4e16}+\u{1f600}1 // \u{e9}\n\"\u{4e16}\u{1f600}\"");
    let found: Vec<(TokenType, &str)> =
        tokens.iter().map(|token| (token.token_type, token.source)).collect();
    assert_eq!(found, vec![
        (TokenType::Error, "Unexpected character"),
        (TokenType::Error, "Unexpected character"),
        (TokenType::Plus, "+"),
        (TokenType::Error, "Unexpected character"),
        (TokenType::Number, "1"),
        (TokenType::String, "\"\u{4e16}\u{1f600}\""),
        (TokenType::Eof, ""),
    ]);
}

#[test]
fn test_number_shapes() {
    assert_eq!(lexemes("12.5"), vec!["12.5", ""]);
    assert_eq!(lexemes("12."), vec!["12", ".", ""]);
    assert_eq!(lexemes("1.2.3"), vec!["1.2", ".", "3", ""]);
    assert_eq!(lexemes(".5"), vec![".", "5", ""]);
    assert_eq!(kinds("7.x"), vec![
        TokenType::Number,
        TokenType::Dot,
        TokenType::Identifier,
        TokenType::Eof
    ]);
}

#[test]
fn test_slash_alone_is_a_token() {
    assert_eq!(kinds("1 / 2"), vec![
        TokenType::Number,
        TokenType::Slash,
        TokenType::Number,
        TokenType::Eof
    ]);
    assert_eq!(kinds("/"), vec![TokenType::Slash, TokenType::Eof]);
}

#[test]
fn test_scanning_past_the_end_keeps_giving_eof() {
    let mut scanner = Scanner::new("x");
    assert_eq!(scanner.scan_token().token_type, TokenType::Identifier);
    assert_eq!(scanner.scan_token().token_type, TokenType::Eof);
    assert_eq!(scanner.scan_token().token_type, TokenType::Eof);
    assert!(scanner.is_at_end());
}
