use cfgpp::{CfgppValue, Lexer, Parser, Schema, TokenType};

struct Source(u64);

impl Source {
    fn next(&mut self) -> u64 {
        self.0 ^= self.0 << 13;
        self.0 ^= self.0 >> 7;
        self.0 ^= self.0 << 17;
        self.0
    }

    fn text(&mut self, alphabet: &[&str], pieces: usize) -> String {
        let mut text = String::new();
        for _ in 0..pieces {
            text.push_str(alphabet[(self.next() % alphabet.len() as u64) as usize]);
        }
        text
    }
}

const PIECES: [&str; 40] = [
    "{", "}", "[", "]", "(", ")", "=", ";", ",", ".", ":", "::", "+", "-", "*", "/", "//", "\n",
    " ", "\t", "\"", "\\", "\\n", "$", "${", "${A:-", "@", "@include", "@import", "a", "name",
    "true", "null", "enum", "0", "12", "3.5", "e", "é", "#",
];

#[test]
fn every_text_is_scanned_or_refused() {
    let mut source = Source(0x9e37_79b9_7f4a_7c15);
    for round in 0..4000 {
        let text = source.text(&PIECES, 1 + round % 12);
        if let Ok(tokens) = Lexer::new(&text).tokenize() {
            assert_eq!(tokens.last().unwrap().token_type, TokenType::Eof);
            for token in &tokens[..tokens.len() - 1] {
                assert!(!matches!(
                    token.token_type,
                    TokenType::Eof | TokenType::Comment | TokenType::Whitespace | TokenType::Newline
                ));
                assert!(token.line >= 1 && token.column >= 1);
                assert!(token.position <= text.len());
            }
            let places: Vec<usize> = tokens.iter().map(|t| t.position).collect();
            let mut sorted = places.clone();
            sorted.sort();
            assert_eq!(places, sorted);
        }
    }
}

#[test]
fn every_text_is_parsed_or_refused() {
    let mut source = Source(0x2545_f491_4f6c_dd1d);
    let mut parsed = 0;
    for round in 0..4000 {
        let text = source.text(&PIECES, 1 + round % 10);
        let mut parser = Parser::new();
        parser.define_variable("A", "value");
        parser.define_number("3.5", 3.5f64.to_bits());
        parser.add_file("a", "{ x = 1 }");
        let result = parser.parse(&text);
        let checked = parser.validate_syntax(&text);
        assert_eq!(result.is_ok(), checked.is_ok());
        if let Ok(value) = result {
            parsed += 1;
            assert_eq!(value.clone(), value);
            let _ = value.get_path(&text);
        }
    }
    assert!(parsed > 100);
}

#[test]
fn every_text_is_read_as_a_schema_or_refused() {
    let alphabet = [
        "enum ", "enum", "{", "}", "\n", " ", ":", ";", ",", "array<", "optional<", ">", "string",
        "integer", "Name", "a", "//", "#", "é",
    ];
    let mut source = Source(0x1234_5678_9abc_def1);
    for round in 0..4000 {
        let text = source.text(&alphabet, 1 + round % 14);
        if let Ok(mut schema) = Schema::parse(&text) {
            schema.set_root_schema(cfgpp::TypeDefinition::Object("Name".to_string()));
            let _ = schema.validate(&CfgppValue::object());
        }
    }
}

#[test]
fn every_path_is_followed_or_ends_in_nothing() {
    let alphabet = [".", "[", "]", "0", "1", "+", "a", "b", "-", " "];
    let mut parser = Parser::new();
    let value = parser.parse("{ a = [ { b = [1, 2] }, 3 ]; b = { a = 1 } }").unwrap();
    let mut source = Source(0xfeed_beef_cafe_f00d);
    let mut found = 0;
    for round in 0..4000 {
        let path = source.text(&alphabet, 1 + round % 8);
        if value.get_path(&path).is_some() {
            found += 1;
        }
    }
    assert!(found > 0);
}
