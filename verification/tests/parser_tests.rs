use cfgpp::{CfgppError, CfgppValue, HostRequest, Parser, ParserOptions};

#[test]
fn test_basic_parsing() {
    let input = r#"
        database {
            host = "localhost";
            port = 5432;
            ssl = true;
        }
        "#;

    let mut parser = Parser::new();
    let result = parser.parse(input).unwrap();

    assert!(result.is_object());
    let db = result.get("database").unwrap();
    assert_eq!(db.get("host").unwrap().as_string(), Some("localhost"));
    assert_eq!(db.get("port").unwrap().as_integer(), Some(5432));
    assert_eq!(db.get("ssl").unwrap().as_boolean(), Some(true));
}

#[test]
fn test_env_var_expansion() {
    let input = r#"
        config {
            value = ${TEST_VAR};
            default_value = ${MISSING_VAR:-default};
        }
        "#;

    let mut parser = Parser::new();
    parser.define_variable("TEST_VAR", "test_value");
    let result = parser.parse(input).unwrap();

    assert_eq!(result.get_path("config.value").unwrap().as_string(), Some("test_value"));
    assert_eq!(result.get_path("config.default_value").unwrap().as_string(), Some("default"));
}

#[test]
fn test_syntax_validation() {
    let input = r#"
        invalid {
            missing_value = ;
        }
        "#;

    let mut parser = Parser::new();
    let result = parser.validate_syntax(input);

    assert!(result.is_err());
}

#[test]
fn end_to_end_database_example() {
    let mut parser = Parser::new();
    let value = parser
        .parse(r#"database { host = "localhost"; port = 5432; ssl = true; }"#)
        .unwrap();
    assert!(value.is_object());
    assert_eq!(value.get_path("database.host"), Some(&CfgppValue::String("localhost".to_string())));
    assert_eq!(value.get_path("database.port"), Some(&CfgppValue::Integer(5432)));
    assert_eq!(value.get_path("database.ssl"), Some(&CfgppValue::Boolean(true)));
    assert_eq!(value.get_path("database.missing"), None);
}

#[test]
fn scalars_parse_to_their_values() {
    let mut parser = Parser::new();
    assert_eq!(parser.parse("123").unwrap(), CfgppValue::Integer(123));
    assert_eq!(parser.parse("\"a\\nb\"").unwrap(), CfgppValue::String("a\nb".to_string()));
    assert_eq!(parser.parse("true").unwrap(), CfgppValue::Boolean(true));
    assert_eq!(parser.parse("false").unwrap(), CfgppValue::Boolean(false));
    assert_eq!(parser.parse("null").unwrap(), CfgppValue::Null);
    assert_eq!(parser.parse("active").unwrap(), CfgppValue::Enum("active".to_string()));
    assert_eq!(parser.parse("9223372036854775807").unwrap(), CfgppValue::Integer(i64::MAX));
}

#[test]
fn integer_out_of_range_is_a_syntax_error() {
    let mut parser = Parser::new();
    let error = parser.parse("  9223372036854775808").unwrap_err();
    assert_eq!(
        error,
        CfgppError::SyntaxError {
            message: "Invalid integer: 9223372036854775808".to_string(),
            line: 1,
            column: 3,
        }
    );
}

#[test]
fn doubles_come_from_the_host() {
    let mut parser = Parser::new();
    let requests = parser.requests("[45.67, 1.23e-4, 7]").unwrap();
    assert_eq!(
        requests,
        vec![
            HostRequest::Number("45.67".to_string()),
            HostRequest::Number("1.23e-4".to_string()),
        ]
    );
    for request in requests {
        if let HostRequest::Number(text) = request {
            let number: f64 = text.parse().unwrap();
            parser.define_number(&text, number.to_bits());
        }
    }
    let value = parser.parse("[45.67, 1.23e-4, 7]").unwrap();
    assert_eq!(value.get_index(0).unwrap().as_double().map(f64::from_bits), Some(45.67));
    assert_eq!(value.get_index(1).unwrap().as_double().map(f64::from_bits), Some(1.23e-4));
    assert_eq!(value.get_index(2).unwrap().as_integer(), Some(7));
}

#[test]
fn double_that_was_not_handed_over_is_invalid() {
    let mut parser = Parser::new();
    let error = parser.parse("{ x = 1e }").unwrap_err();
    assert!(error.is_syntax_error());
    let error = parser.parse("1e").unwrap_err();
    assert_eq!(
        error,
        CfgppError::SyntaxError { message: "Invalid double: 1e".to_string(), line: 1, column: 1 }
    );
}

#[test]
fn objects_and_arrays() {
    let mut parser = Parser::new();
    let value = parser
        .parse("{ servers = [\"web1\", \"web2\" \"web3\",]; ports = [80, 443, 8080] nested = { a = 1 } }")
        .unwrap();
    let servers = value.get("servers").unwrap().as_array().unwrap();
    assert_eq!(servers.len(), 3);
    assert_eq!(servers[0].as_string(), Some("web1"));
    assert_eq!(value.get_path("servers[2]").unwrap().as_string(), Some("web3"));
    assert_eq!(value.get_path("ports[1]").unwrap().as_integer(), Some(443));
    assert_eq!(value.get_path("nested.a").unwrap().as_integer(), Some(1));
    assert_eq!(value.len(), 3);
}

#[test]
fn later_assignment_wins() {
    let mut parser = Parser::new();
    let value = parser.parse("{ a = 1; b = 2; a = 3 }").unwrap();
    assert_eq!(value.len(), 2);
    assert_eq!(value.get("a").unwrap().as_integer(), Some(3));
    assert_eq!(value.get("b").unwrap().as_integer(), Some(2));
}

#[test]
fn top_level_assignment_is_read_as_an_enum_value() {
    let input = r#"
        servers = ["web1", "web2", "web3"];
        ports = [80, 443, 8080];
        "#;
    let mut parser = Parser::new();
    let result = parser.parse(input).unwrap();
    assert_eq!(result, CfgppValue::Enum("servers".to_string()));
    assert_eq!(result.get("servers"), None);
}

#[test]
fn named_object_inside_an_object_needs_an_equals_sign() {
    let input = r#"
        app {
            database {
                host = "localhost";
            }
        }
        "#;
    let mut parser = Parser::new();
    let error = parser.parse(input).unwrap_err();
    assert_eq!(
        error,
        CfgppError::SyntaxError {
            message: "Expected Equals, found LeftBrace".to_string(),
            line: 3,
            column: 22,
        }
    );

    let input = r#"
        app {
            database = {
                host = "localhost";
                credentials = credentials {
                    username = "admin";
                }
            }
        }
        "#;
    let result = parser.parse(input).unwrap();
    let username = result.get_path("app.database.credentials.credentials.username");
    assert_eq!(username.unwrap().as_string(), Some("admin"));
}

#[test]
fn grammar_errors() {
    let mut parser = Parser::new();
    assert_eq!(
        parser.parse("{ a = 1").unwrap_err(),
        CfgppError::SyntaxError {
            message: "Expected RightBrace, found Eof".to_string(),
            line: 1,
            column: 8,
        }
    );
    assert_eq!(
        parser.parse("[1, 2").unwrap_err(),
        CfgppError::SyntaxError {
            message: "Expected RightBracket, found Eof".to_string(),
            line: 1,
            column: 6,
        }
    );
    assert_eq!(
        parser.parse("{ 1 = 2 }").unwrap_err(),
        CfgppError::SyntaxError {
            message: "Expected Identifier, found Integer".to_string(),
            line: 1,
            column: 3,
        }
    );
    assert_eq!(
        parser.parse("= 2").unwrap_err(),
        CfgppError::SyntaxError { message: "Unexpected token: =".to_string(), line: 1, column: 1 }
    );
    assert_eq!(
        parser.parse("").unwrap_err(),
        CfgppError::SyntaxError { message: "Unexpected token: ".to_string(), line: 1, column: 1 }
    );
    assert_eq!(
        parser.parse("\"open").unwrap_err(),
        CfgppError::SyntaxError { message: "Unterminated string".to_string(), line: 1, column: 1 }
    );
}

#[test]
fn environment_variables() {
    let mut parser = Parser::new();
    parser.define_variable("TEST_VAR", "x");
    assert_eq!(parser.parse("${TEST_VAR}").unwrap(), CfgppValue::String("x".to_string()));
    assert_eq!(parser.parse("${MISSING:-d}").unwrap(), CfgppValue::String("d".to_string()));
    assert_eq!(parser.parse("${MISSING:-}").unwrap(), CfgppValue::String("".to_string()));
    assert_eq!(parser.parse("${TEST_VAR:-d}").unwrap(), CfgppValue::String("x".to_string()));
    assert_eq!(
        parser.parse("${MISSING}").unwrap_err(),
        CfgppError::EnvVarError {
            var: "MISSING".to_string(),
            message: "Environment variable not found".to_string(),
        }
    );
    parser.define_variable("TEST_VAR", "y");
    assert_eq!(parser.parse("${TEST_VAR}").unwrap(), CfgppValue::String("y".to_string()));
    assert_eq!(
        parser.requests("[${A}, ${B:-c}]").unwrap(),
        vec![HostRequest::Variable("A".to_string()), HostRequest::Variable("B".to_string())]
    );
}

#[test]
fn environment_variables_left_as_written() {
    let mut options = ParserOptions::default();
    options.expand_env_vars = false;
    let mut parser = Parser::with_options(options);
    parser.define_variable("TEST_VAR", "x");
    assert_eq!(
        parser.parse("${TEST_VAR:-d}").unwrap(),
        CfgppValue::String("${TEST_VAR:-d}".to_string())
    );
}

#[test]
fn includes_are_spliced_in_place() {
    let mut parser = Parser::new();
    assert_eq!(
        parser.requests("{ a = @include \"a.cfg\"; b = @import \"b.cfg\" }").unwrap(),
        vec![HostRequest::File("a.cfg".to_string()), HostRequest::File("b.cfg".to_string())]
    );
    parser.add_file("a.cfg", "{ x = 1 }");
    parser.add_file("b.cfg", "[1, 2]");
    let value = parser.parse("{ a = @include \"a.cfg\"; b = @import \"b.cfg\" }").unwrap();
    assert_eq!(value.get_path("a.x").unwrap().as_integer(), Some(1));
    assert_eq!(value.get_path("b[1]").unwrap().as_integer(), Some(2));
    assert_eq!(
        parser.parse("@include \"c.cfg\"").unwrap_err(),
        CfgppError::IncludeError {
            path: "c.cfg".to_string(),
            message: "File not found in include paths".to_string(),
        }
    );
}

#[test]
fn includes_can_be_switched_off() {
    let mut options = ParserOptions::default();
    options.process_includes = false;
    let mut parser = Parser::with_options(options);
    parser.add_file("a.cfg", "1");
    assert_eq!(
        parser.parse("\n @include \"a.cfg\"").unwrap_err(),
        CfgppError::SyntaxError {
            message: "Include directives are disabled".to_string(),
            line: 2,
            column: 2,
        }
    );
}

fn chain_parser(length: usize, max_depth: usize) -> Parser {
    let mut options = ParserOptions::default();
    options.max_include_depth = max_depth;
    let mut parser = Parser::with_options(options);
    for i in 1..length {
        parser.add_file(&format!("f{}", i), &format!("@include \"f{}\"", i + 1));
    }
    parser.add_file(&format!("f{}", length), "42");
    parser
}

#[test]
fn include_chain_within_the_depth_succeeds() {
    for length in 1..=10 {
        let mut parser = chain_parser(length, 10);
        assert_eq!(parser.parse("@include \"f1\"").unwrap(), CfgppValue::Integer(42));
    }
    let mut parser = chain_parser(3, 3);
    assert_eq!(parser.parse("@include \"f1\"").unwrap(), CfgppValue::Integer(42));
}

#[test]
fn include_chain_beyond_the_depth_fails() {
    let mut parser = chain_parser(11, 10);
    assert_eq!(
        parser.parse("@include \"f1\"").unwrap_err(),
        CfgppError::IncludeError {
            path: "unknown".to_string(),
            message: "Maximum include depth (10) exceeded".to_string(),
        }
    );
    let mut parser = chain_parser(4, 3);
    assert!(matches!(
        parser.parse("@include \"f1\"").unwrap_err(),
        CfgppError::IncludeError { .. }
    ));
    let mut parser = chain_parser(1, 0);
    assert!(matches!(
        parser.parse("@include \"f1\"").unwrap_err(),
        CfgppError::IncludeError { .. }
    ));
}

#[test]
fn include_cycle_ends_at_the_depth_limit() {
    let mut parser = Parser::new();
    parser.add_file("a", "@include \"b\"");
    parser.add_file("b", "@include \"a\"");
    assert!(matches!(
        parser.parse("@include \"a\"").unwrap_err(),
        CfgppError::IncludeError { .. }
    ));
}

#[test]
fn syntax_only_builds_no_containers() {
    let mut options = ParserOptions::default();
    options.syntax_only = true;
    let mut parser = Parser::with_options(options);
    assert_eq!(parser.parse("{ a = [1, 2]; b = 3 }").unwrap(), CfgppValue::Null);
    assert_eq!(parser.parse("[1, 2]").unwrap(), CfgppValue::Null);
    assert_eq!(parser.parse("name { a = 1 }").unwrap(), CfgppValue::Null);
    assert!(parser.parse("{ a = ${MISSING} }").is_err());

    let mut parser = Parser::new();
    assert!(parser.validate_syntax("{ a = [1, 2]; b = 3 }").is_ok());
    assert!(parser.validate_syntax("{ a = [1, 2; b = 3 }").is_err());
    assert_eq!(parser.parse("[1]").unwrap().len(), 1);
}

#[test]
fn merging_pours_objects_in_order() {
    let mut parser = Parser::new();
    let first = parser.parse("{ a = 1; b = 2 }").unwrap();
    let second = parser.parse("[1]").unwrap();
    let third = parser.parse("{ b = 3; c = 4 }").unwrap();
    let merged = cfgpp::parser::merge_objects(vec![first, second, third]);
    assert_eq!(merged.len(), 3);
    assert_eq!(merged.get("a").unwrap().as_integer(), Some(1));
    assert_eq!(merged.get("b").unwrap().as_integer(), Some(3));
    assert_eq!(merged.get("c").unwrap().as_integer(), Some(4));
}
