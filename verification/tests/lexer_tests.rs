use cfgpp::{CfgppError, Lexer, TokenType};

#[test]
fn test_basic_tokenization() {
    let input = r#"
        database {
            host = "localhost";
            port = 5432;
            ssl = true;
        }
        "#;

    let mut lexer = Lexer::new(input);
    let tokens = lexer.tokenize().unwrap();

    assert!(!tokens.is_empty());
    assert_eq!(tokens.last().unwrap().token_type, TokenType::Eof);
}

#[test]
fn test_string_parsing() {
    let input = r#""hello world""#;
    let mut lexer = Lexer::new(input);
    let tokens = lexer.tokenize().unwrap();

    assert_eq!(tokens[0].token_type, TokenType::String);
    assert_eq!(tokens[0].value, "hello world");
}

#[test]
fn test_number_parsing() {
    let input = "123 45.67 1.23e-4";
    let mut lexer = Lexer::new(input);
    let tokens = lexer.tokenize().unwrap();

    assert_eq!(tokens[0].token_type, TokenType::Integer);
    assert_eq!(tokens[0].value, "123");

    assert_eq!(tokens[1].token_type, TokenType::Double);
    assert_eq!(tokens[1].value, "45.67");

    assert_eq!(tokens[2].token_type, TokenType::Double);
    assert_eq!(tokens[2].value, "1.23e-4");
}

fn kinds(input: &str) -> Vec<TokenType> {
    Lexer::new(input).tokenize().unwrap().iter().map(|t| t.token_type).collect()
}

#[test]
fn second_dot_ends_the_number() {
    let tokens = Lexer::new("1..2").tokenize().unwrap();
    assert_eq!(tokens[0].token_type, TokenType::Double);
    assert_eq!(tokens[0].value, "1.");
    assert_eq!(tokens[1].token_type, TokenType::Dot);
    assert_eq!(tokens[2].token_type, TokenType::Integer);
    assert_eq!(tokens[2].value, "2");
    assert_eq!(tokens[3].token_type, TokenType::Eof);
    assert_eq!(tokens.len(), 4);
}

#[test]
fn one_exponent_marker_with_an_optional_sign() {
    let tokens = Lexer::new("1e5 2E+3 4.5e-6 7e5e3 8e+ 1e5.3").tokenize().unwrap();
    let texts: Vec<&str> = tokens.iter().map(|t| t.value.as_str()).collect();
    assert_eq!(
        texts,
        vec!["1e5", "2E+3", "4.5e-6", "7e5", "e3", "8e+", "1e5", ".", "3", ""]
    );
    assert_eq!(tokens[3].token_type, TokenType::Double);
    assert_eq!(tokens[4].token_type, TokenType::Identifier);
}

#[test]
fn punctuation_and_operators() {
    assert_eq!(
        kinds("{ } [ ] ( ) = ; , . : :: + - * /"),
        vec![
            TokenType::LeftBrace,
            TokenType::RightBrace,
            TokenType::LeftBracket,
            TokenType::RightBracket,
            TokenType::LeftParen,
            TokenType::RightParen,
            TokenType::Equals,
            TokenType::Semicolon,
            TokenType::Comma,
            TokenType::Dot,
            TokenType::Colon,
            TokenType::Namespace,
            TokenType::Plus,
            TokenType::Minus,
            TokenType::Multiply,
            TokenType::Divide,
            TokenType::Eof,
        ]
    );
}

#[test]
fn words_and_keywords() {
    assert_eq!(
        kinds("true false null enum name _x9 @include @import"),
        vec![
            TokenType::Boolean,
            TokenType::Boolean,
            TokenType::Null,
            TokenType::Enum,
            TokenType::Identifier,
            TokenType::Identifier,
            TokenType::Include,
            TokenType::Import,
            TokenType::Eof,
        ]
    );
}

#[test]
fn comments_are_dropped() {
    let tokens = Lexer::new("a // rest of line = 5\nb / c //").tokenize().unwrap();
    let texts: Vec<&str> = tokens.iter().map(|t| t.value.as_str()).collect();
    assert_eq!(texts, vec!["a", "b", "/", "c", ""]);
    assert_eq!(tokens[1].line, 2);
    assert_eq!(tokens[1].column, 1);
}

#[test]
fn string_escapes() {
    let tokens = Lexer::new(r#""a\n\r\t\\\"b\q\u""#).tokenize().unwrap();
    assert_eq!(tokens[0].value, "a\n\r\t\\\"b\\q\\u");
    assert_eq!(tokens.len(), 2);
}

#[test]
fn environment_variable_tokens_keep_nested_braces() {
    let tokens = Lexer::new("${A:-{x}{y{z}}} ${B}").tokenize().unwrap();
    assert_eq!(tokens[0].token_type, TokenType::EnvVar);
    assert_eq!(tokens[0].value, "${A:-{x}{y{z}}}");
    assert_eq!(tokens[1].value, "${B}");
}

#[test]
fn places_count_lines_columns_and_bytes() {
    let tokens = Lexer::new("ab \"é\"\n  c\r\n\td").tokenize().unwrap();
    let places: Vec<(usize, usize, usize)> =
        tokens.iter().map(|t| (t.line, t.column, t.position)).collect();
    assert_eq!(places, vec![(1, 1, 0), (1, 4, 3), (2, 3, 10), (3, 2, 14), (3, 3, 15)]);
    let tokens = Lexer::new("").tokenize().unwrap();
    assert_eq!(tokens.len(), 1);
    assert_eq!((tokens[0].line, tokens[0].column, tokens[0].position), (1, 1, 0));
}

#[test]
fn scanner_errors() {
    let error = |input: &str| Lexer::new(input).tokenize().unwrap_err();
    assert_eq!(
        error("a = \"open"),
        CfgppError::SyntaxError { message: "Unterminated string".to_string(), line: 1, column: 5 }
    );
    assert_eq!(
        error("\"ends with backslash\\"),
        CfgppError::SyntaxError { message: "Unterminated string".to_string(), line: 1, column: 1 }
    );
    assert_eq!(
        error("\n${A{}"),
        CfgppError::SyntaxError {
            message: "Unterminated environment variable".to_string(),
            line: 2,
            column: 1,
        }
    );
    assert_eq!(
        error("$A"),
        CfgppError::SyntaxError {
            message: "Unexpected character '$'".to_string(),
            line: 1,
            column: 1,
        }
    );
    assert_eq!(
        error(" @includes"),
        CfgppError::SyntaxError {
            message: "Unknown directive '@includes'".to_string(),
            line: 1,
            column: 2,
        }
    );
    assert_eq!(
        error("@"),
        CfgppError::SyntaxError {
            message: "Unknown directive '@'".to_string(),
            line: 1,
            column: 1,
        }
    );
    assert_eq!(
        error("a ? b"),
        CfgppError::SyntaxError {
            message: "Unexpected character '?'".to_string(),
            line: 1,
            column: 3,
        }
    );
    assert_eq!(
        error("é"),
        CfgppError::SyntaxError {
            message: "Unexpected character 'é'".to_string(),
            line: 1,
            column: 1,
        }
    );
}

#[test]
fn unicode_whitespace_is_skipped() {
    let tokens = Lexer::new("a\u{a0}\u{2003}\u{3000}b\u{85}").tokenize().unwrap();
    assert_eq!(tokens.len(), 3);
    assert_eq!(tokens[1].value, "b");
    for c in ['\u{9}', '\u{b}', '\u{d}', ' ', '\u{1680}', '\u{2028}', '\u{205f}', 'x', '\u{200b}'] {
        let text = c.to_string();
        let tokens = Lexer::new(&text).tokenize();
        assert_eq!(tokens.map(|t| t.len() == 1).unwrap_or(false), c.is_whitespace());
    }
}

#[test]
fn scanning_twice_gives_the_rest() {
    let mut lexer = Lexer::new("a b");
    assert_eq!(lexer.tokenize().unwrap().len(), 3);
    let again = lexer.tokenize().unwrap();
    assert_eq!(again.len(), 1);
    assert_eq!(again[0].token_type, TokenType::Eof);
    assert_eq!((again[0].line, again[0].column, again[0].position), (1, 4, 3));
}

#[test]
fn token_text() {
    let tokens = Lexer::new("\n  name").tokenize().unwrap();
    assert_eq!(tokens[0].to_text(), "Identifier(name) at 2:3");
    assert_eq!(tokens[1].to_text(), "Eof() at 2:7");
    let token = cfgpp::Token::new(TokenType::String, "s".to_string(), 1, 2, 3);
    assert_eq!((token.line, token.column, token.position), (1, 2, 3));
    assert_eq!(token.to_text(), "String(s) at 1:2");
}
