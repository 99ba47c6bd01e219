use lox_lexer::{scan, tokenize, ErrorHandler, ScanErrorKind, ScannerError, TokenType};

fn simulate_scan_input(input: &str) -> Result<Vec<TokenType>, ScannerError> {
    let error_handler = ErrorHandler::new(&input.to_string());
    let tokens = scan(&input, &error_handler)?;
    Ok(tokens
        .iter()
        .map(|token| token.token_type().clone())
        .collect())
}

/// A token kind with any floating-point literal read as its value.
#[derive(Debug, PartialEq)]
enum Lexed {
    Kind(TokenType),
    Float(f64),
}

fn lexed(t: TokenType) -> Lexed {
    match t {
        TokenType::FloatValue(text) => Lexed::Float(text.parse().unwrap()),
        other => Lexed::Kind(other),
    }
}

#[test]
fn test_function_block() {
    let input = "fun myFunction(a: int): string {\nreturn \"result\"\n}".to_string();

    let result = simulate_scan_input(&input).unwrap();

    assert_eq!(
        result,
        vec![
            TokenType::Fun,
            TokenType::Identifier("myFunction".to_string()),
            TokenType::LeftParenthesis,
            TokenType::Identifier("a".to_string()),
            TokenType::Colon,
            TokenType::Int,
            TokenType::RightParenthesis,
            TokenType::Colon,
            TokenType::String,
            TokenType::LeftBrace,
            TokenType::Return,
            TokenType::StringValue("result".to_string()),
            TokenType::RightBrace,
            TokenType::EOF,
        ]
    )
}

#[test]
fn test_single_token_types() {
    let input = "+ - * / ( ) { } , ; : = ! == < <= > >=".to_string();
    let expected_tokens = vec![
        TokenType::Plus,
        TokenType::Minus,
        TokenType::Star,
        TokenType::Slash,
        TokenType::LeftParenthesis,
        TokenType::RightParenthesis,
        TokenType::LeftBrace,
        TokenType::RightBrace,
        TokenType::Comma,
        TokenType::Semicolon,
        TokenType::Colon,
        TokenType::Equal,
        TokenType::Bang,
        TokenType::EqualEqual,
        TokenType::Less,
        TokenType::LessEqual,
        TokenType::Greater,
        TokenType::GreaterEqual,
        TokenType::EOF,
    ];
    assert_eq!(simulate_scan_input(&input).unwrap(), expected_tokens);
}

#[test]
fn test_two_character_tokens() {
    let input = "!= == <= >=".to_string();
    let expected_tokens = vec![
        TokenType::BangEqual,
        TokenType::EqualEqual,
        TokenType::LessEqual,
        TokenType::GreaterEqual,
        TokenType::EOF,
    ];
    assert_eq!(simulate_scan_input(&input).unwrap(), expected_tokens);
}

#[test]
fn test_identifiers_and_keywords() {
    let input = "class MyClass fun myFunction if else true false var x".to_string();
    let expected_tokens = vec![
        TokenType::Class,
        TokenType::Identifier("MyClass".to_string()),
        TokenType::Fun,
        TokenType::Identifier("myFunction".to_string()),
        TokenType::If,
        TokenType::Else,
        TokenType::True,
        TokenType::False,
        TokenType::Var,
        TokenType::Identifier("x".to_string()),
        TokenType::EOF,
    ];
    assert_eq!(simulate_scan_input(&input).unwrap(), expected_tokens);
}

#[test]
fn test_integers_and_floats() {
    let input = "123 45.67 0 -987.65".to_string();
    let expected_tokens = vec![
        Lexed::Kind(TokenType::IntegerValue(123)),
        Lexed::Float(45.67),
        Lexed::Kind(TokenType::IntegerValue(0)),
        Lexed::Kind(TokenType::Minus),
        Lexed::Float(987.65),
        Lexed::Kind(TokenType::EOF),
    ];
    let result: Vec<Lexed> = simulate_scan_input(&input)
        .unwrap()
        .into_iter()
        .map(lexed)
        .collect();
    assert_eq!(result, expected_tokens);
}

#[test]
fn test_strings() {
    let input = "\"hello\" \"world\" \"123\"".to_string();
    let expected_tokens = vec![
        TokenType::StringValue("hello".to_string()),
        TokenType::StringValue("world".to_string()),
        TokenType::StringValue("123".to_string()),
        TokenType::EOF,
    ];
    assert_eq!(simulate_scan_input(&input).unwrap(), expected_tokens);
}

#[test]
fn test_comments() {
    let input = "// This is a comment".to_string();
    let expected_tokens = vec![TokenType::EOF];
    assert_eq!(simulate_scan_input(&input).unwrap(), expected_tokens);
}

#[test]
fn test_multiline_comment() {
    let input = "/* This is a comment\n This is the second line */".to_string();
    let expected_tokens = vec![TokenType::EOF];
    assert_eq!(simulate_scan_input(&input).unwrap(), expected_tokens);
}

#[test]
fn test_error_handling_invalid_characters() {
    let input = "$ %".to_string();
    let error_handler = ErrorHandler::new(&input);
    let res = scan(&input, &error_handler);
    assert!(res.is_err());
}

#[test]
fn test_error_handling_unterminated_strings() {
    let input = "\"unterminated string".to_string();
    assert!(simulate_scan_input(&input).is_err());
}

#[test]
fn test_complex_scenarios() {
    let input = "if (x == 1) { print(\"x is 1\"); } else { print(\"x is not 1\"); }".to_string();
    let expected_tokens = vec![
        TokenType::If,
        TokenType::LeftParenthesis,
        TokenType::Identifier("x".to_string()),
        TokenType::EqualEqual,
        TokenType::IntegerValue(1),
        TokenType::RightParenthesis,
        TokenType::LeftBrace,
        TokenType::Print,
        TokenType::LeftParenthesis,
        TokenType::StringValue("x is 1".to_string()),
        TokenType::RightParenthesis,
        TokenType::Semicolon,
        TokenType::RightBrace,
        TokenType::Else,
        TokenType::LeftBrace,
        TokenType::Print,
        TokenType::LeftParenthesis,
        TokenType::StringValue("x is not 1".to_string()),
        TokenType::RightParenthesis,
        TokenType::Semicolon,
        TokenType::RightBrace,
        TokenType::EOF,
    ];
    assert_eq!(simulate_scan_input(&input).unwrap(), expected_tokens);
}

#[test]
fn end_marker_is_last_and_only_once() {
    for input in ["", "x", "a $ \"open", "/* open", "1 + 2 // done"] {
        let (tokens, _) = tokenize(input);
        let last = tokens.last().unwrap();
        assert_eq!(last.token_type(), &TokenType::EOF);
        assert_eq!(last.line_information().offset(), input.len());
        assert_eq!(last.line_information().length(), 0);
        let eofs = tokens
            .iter()
            .filter(|t| t.token_type() == &TokenType::EOF)
            .count();
        assert_eq!(eofs, 1);
    }
}

#[test]
fn token_regions_spell_input_without_blanks_and_comments() {
    let input = "fun f(a) {\n  return a >= 10.5; // note\n} /* end */ \"s t\"";
    let (tokens, diagnostics) = tokenize(input);
    assert!(diagnostics.is_empty());
    let mut text = String::new();
    for t in tokens.iter() {
        let li = t.line_information();
        text.push_str(&input[li.offset()..li.offset() + li.length()]);
    }
    assert_eq!(text, "funf(a){returna>=10.5;}\"s t\"");
}

#[test]
fn scanning_twice_gives_same_tokens_and_reports() {
    let input = "var x = 1; $ \"open".to_string();
    let first = scan(&input, &ErrorHandler::new(&input)).unwrap_err();
    let second = scan(&input, &ErrorHandler::new(&input)).unwrap_err();
    assert_eq!(first.reports(), second.reports());
    assert_eq!(first.diagnostics(), second.diagnostics());
    let kinds = |s: &str| -> Vec<TokenType> {
        tokenize(s).0.iter().map(|t| t.token_type().clone()).collect()
    };
    assert_eq!(kinds(&input), kinds(&input));
}

#[test]
fn unterminated_string_gives_one_diagnostic() {
    let input = "\"unterminated string".to_string();
    let error = scan(&input, &ErrorHandler::new(&input)).unwrap_err();
    assert_eq!(error.message(), "Error scanning file.");
    assert_eq!(error.diagnostics().len(), 1);
    let d = error.diagnostics()[0];
    assert_eq!(d.kind, ScanErrorKind::UnterminatedString);
    assert_eq!(d.span.offset(), 0);
    assert_eq!(d.span.length(), input.len());
    assert_eq!(error.reports().len(), 1);
    assert!(error.reports()[0].starts_with("Unterminated string.\n"));
    let (tokens, _) = tokenize(&input);
    assert_eq!(tokens.len(), 1);
}

#[test]
fn unexpected_characters_are_each_reported() {
    let input = "$ %".to_string();
    let error = scan(&input, &ErrorHandler::new(&input)).unwrap_err();
    let kinds: Vec<ScanErrorKind> = error.diagnostics().iter().map(|d| d.kind).collect();
    assert_eq!(
        kinds,
        vec![
            ScanErrorKind::UnexpectedCharacter('$'),
            ScanErrorKind::UnexpectedCharacter('%')
        ]
    );
    assert_eq!(
        error.reports()[0],
        "Unexpected character '$'.\n   |\n 1 | $ %\n   | ^\n"
    );
    assert_eq!(
        error.reports()[1],
        "Unexpected character '%'.\n   |\n 1 | $ %\n   |   ^\n"
    );
}

#[test]
fn tokens_around_an_error_are_kept() {
    let (tokens, diagnostics) = tokenize("a $ b");
    assert_eq!(diagnostics.len(), 1);
    let kinds: Vec<TokenType> = tokens.iter().map(|t| t.token_type().clone()).collect();
    assert_eq!(
        kinds,
        vec![
            TokenType::Identifier("a".to_string()),
            TokenType::Identifier("b".to_string()),
            TokenType::EOF
        ]
    );
}

#[test]
fn unterminated_multiline_comment_is_reported() {
    let input = "x /* open".to_string();
    let error = scan(&input, &ErrorHandler::new(&input)).unwrap_err();
    assert_eq!(error.diagnostics().len(), 1);
    let d = error.diagnostics()[0];
    assert_eq!(d.kind, ScanErrorKind::UnterminatedComment);
    assert_eq!((d.span.offset(), d.span.length()), (2, 7));
    assert_eq!(
        error.reports()[0],
        "Unterminated multiline comment.\n   |\n 1 | x /* open\n   |   ^^^^^^^\n"
    );
}

#[test]
fn integer_out_of_range_is_reported() {
    let input = "9223372036854775808".to_string();
    let error = scan(&input, &ErrorHandler::new(&input)).unwrap_err();
    assert_eq!(error.diagnostics()[0].kind, ScanErrorKind::IntegerOutOfRange);
    assert!(error.reports()[0].starts_with("Cannot parse integer 9223372036854775808\n"));
}

#[test]
fn largest_integer_is_accepted() {
    let tokens = simulate_scan_input("9223372036854775807").unwrap();
    assert_eq!(tokens, vec![TokenType::IntegerValue(i64::MAX), TokenType::EOF]);
}

#[test]
fn number_at_end_of_input_and_trailing_dot() {
    assert_eq!(
        simulate_scan_input("x = 1").unwrap(),
        vec![
            TokenType::Identifier("x".to_string()),
            TokenType::Equal,
            TokenType::IntegerValue(1),
            TokenType::EOF
        ]
    );
    assert_eq!(
        simulate_scan_input("7.").unwrap(),
        vec![TokenType::IntegerValue(7), TokenType::Dot, TokenType::EOF]
    );
    assert_eq!(
        simulate_scan_input("1.5.2").unwrap(),
        vec![
            TokenType::FloatValue("1.5".to_string()),
            TokenType::Dot,
            TokenType::IntegerValue(2),
            TokenType::EOF
        ]
    );
}

#[test]
fn empty_input_gives_only_end_marker() {
    assert_eq!(simulate_scan_input("").unwrap(), vec![TokenType::EOF]);
}

#[test]
fn every_keyword_is_recognised() {
    let input = "and bool class else false float fun for if int nil or print return string super this true val var while";
    let expected = vec![
        TokenType::And,
        TokenType::Bool,
        TokenType::Class,
        TokenType::Else,
        TokenType::False,
        TokenType::Float,
        TokenType::Fun,
        TokenType::For,
        TokenType::If,
        TokenType::Int,
        TokenType::Nil,
        TokenType::Or,
        TokenType::Print,
        TokenType::Return,
        TokenType::String,
        TokenType::Super,
        TokenType::This,
        TokenType::True,
        TokenType::Val,
        TokenType::Var,
        TokenType::While,
        TokenType::EOF,
    ];
    assert_eq!(simulate_scan_input(input).unwrap(), expected);
}

#[test]
fn keyword_prefixes_are_identifiers() {
    assert_eq!(
        simulate_scan_input("classy _if for1 An").unwrap(),
        vec![
            TokenType::Identifier("classy".to_string()),
            TokenType::Identifier("_if".to_string()),
            TokenType::Identifier("for1".to_string()),
            TokenType::Identifier("An".to_string()),
            TokenType::EOF
        ]
    );
}

#[test]
fn strings_keep_newlines_and_backslashes() {
    assert_eq!(
        simulate_scan_input("\"a\\n\nb\"").unwrap(),
        vec![TokenType::StringValue("a\\n\nb".to_string()), TokenType::EOF]
    );
}

#[test]
fn token_regions_are_exact() {
    let (tokens, _) = tokenize("a <= \"bc\"");
    let regions: Vec<(usize, usize)> = tokens
        .iter()
        .map(|t| (t.line_information().offset(), t.line_information().length()))
        .collect();
    assert_eq!(regions, vec![(0, 1), (2, 2), (5, 4), (9, 0)]);
}
