//! The parser: from tokens to a value tree.
//!
//! The parser reads neither the environment nor the file system. Its host
//! hands it what the source refers to before parsing: the values of
//! environment variables, the contents of included files, and the bit
//! patterns of the doubles that the source writes. [`host_requests`] lists
//! what a token sequence refers to.

use vstd::prelude::*;
use vstd::string::*;
use crate::error::{CfgppError, CfgppResult, ErrorModel};
use crate::lexer::{lex, tokenize_text, tokens_view, Token, TokenModel, TokenType};
use crate::text::{
    lookup,
    chars_equal,
    chars_of,
    decimal_digits,
    decimal_within,
    parse_decimal,
    push_decimal,
    push_text,
    string_of,
};
use crate::value::{
    entries_insert,
    entries_insert_all,
    entries_view,
    insert_entry,
    lemma_array_view,
    lemma_object_view,
    values_view,
    CfgppValue,
    Entries,
    ValueModel,
};

verus! {

/// How a parser works.
#[derive(Debug, Clone)]
pub struct ParserOptions {
    /// Replace `${NAME}` by the variable's value.
    pub expand_env_vars: bool,
    /// Carry out `@include` and `@import`.
    pub process_includes: bool,
    /// How deep includes may nest.
    pub max_include_depth: usize,
    /// The directories in which the host looks for included files, in order.
    pub include_paths: Vec<String>,
    /// Check the grammar only and build no containers.
    pub syntax_only: bool,
}

impl Default for ParserOptions {
    /// Variables are expanded, includes are processed up to ten deep and
    /// looked for in the current directory, and values are built.
    fn default() -> (options: Self)
        ensures
            options.expand_env_vars,
            options.process_includes,
            options.max_include_depth == 10,
            options.include_paths@.len() == 1,
            options.include_paths@[0]@ == "."@,
            !options.syntax_only,
    {
        let mut include_paths: Vec<String> = Vec::new();
        include_paths.push(".".to_owned());
        ParserOptions {
            expand_env_vars: true,
            process_includes: true,
            max_include_depth: 10,
            include_paths,
            syntax_only: false,
        }
    }
}

/// All that a parse depends on besides the source text.
pub struct ParseEnv {
    pub expand_env_vars: bool,
    pub process_includes: bool,
    pub max_include_depth: nat,
    pub syntax_only: bool,
    /// Environment variables: names and values. A later entry overrides an
    /// earlier one of the same name.
    pub variables: Seq<(Seq<char>, Seq<char>)>,
    /// Included files: paths as the source writes them, and contents.
    pub files: Seq<(Seq<char>, Seq<char>)>,
    /// Doubles: literals as the source writes them, and IEEE 754 binary64 bit
    /// patterns.
    pub numbers: Seq<(Seq<char>, u64)>,
}

/// The views of a table of texts.
pub open spec fn texts_view(table: Seq<(String, String)>) -> Seq<(Seq<char>, Seq<char>)> {
    Seq::new(table.len(), |i: int| (table[i].0@, table[i].1@))
}

/// The views of a table of numbers.
pub open spec fn numbers_view(table: Seq<(String, u64)>) -> Seq<(Seq<char>, u64)> {
    Seq::new(table.len(), |i: int| (table[i].0@, table[i].1))
}

/// The first index at or after `from` where `:-` stands in `s`, or `s.len()`.
pub open spec fn default_marker(s: Seq<char>, from: int) -> int
    decreases s.len() - from,
{
    if 0 <= from && from + 1 < s.len() {
        if s[from] == ':' && s[from + 1] == '-' {
            from
        } else {
            default_marker(s, from + 1)
        }
    } else {
        s.len() as int
    }
}

/// What stands between `${` and `}` in a variable reference.
pub open spec fn env_content(lexeme: Seq<char>) -> Seq<char> {
    if lexeme.len() >= 3 {
        lexeme.subrange(2, lexeme.len() - 1)
    } else {
        Seq::empty()
    }
}

/// The variable that a reference names: what stands before the first `:-`.
pub open spec fn env_name(lexeme: Seq<char>) -> Seq<char> {
    let content = env_content(lexeme);
    let k = default_marker(content, 0);
    if 0 <= k < content.len() {
        content.subrange(0, k)
    } else {
        content
    }
}

/// The default that a reference gives: what stands behind the first `:-`.
pub open spec fn env_default(lexeme: Seq<char>) -> Option<Seq<char>> {
    let content = env_content(lexeme);
    let k = default_marker(content, 0);
    if 0 <= k < content.len() {
        Some(content.subrange(k + 2, content.len() as int))
    } else {
        None
    }
}

/// The value of a variable reference: the raw text where expansion is off,
/// else the variable's value, else the default, else an error that names the
/// variable.
pub open spec fn env_var_value(env: ParseEnv, lexeme: Seq<char>) -> Result<ValueModel, ErrorModel> {
    if !env.expand_env_vars {
        Ok(ValueModel::Str(lexeme))
    } else {
        match lookup(env.variables, env_name(lexeme)) {
            Some(value) => Ok(ValueModel::Str(value)),
            None => match env_default(lexeme) {
                Some(default) => Ok(ValueModel::Str(default)),
                None => Err(
                    ErrorModel::EnvVarError {
                        var: env_name(lexeme),
                        message: "Environment variable not found"@,
                    },
                ),
            },
        }
    }
}

/// The error for an input that ends where a token is needed.
pub open spec fn end_of_input() -> ErrorModel {
    ErrorModel::ParseError { message: "Unexpected end of input"@ }
}

/// A syntax error at the place of `token`.
pub open spec fn syntax_at(message: Seq<char>, token: TokenModel) -> ErrorModel {
    ErrorModel::SyntaxError { message, line: token.line, column: token.column }
}

/// The error for a token of another kind than the grammar needs.
pub open spec fn expected(kind: TokenType, found: TokenModel) -> ErrorModel {
    syntax_at("Expected "@ + kind.name() + ", found "@ + found.kind.name(), found)
}

/// The error for an include at a depth that the options do not allow.
pub open spec fn depth_exceeded(max: nat) -> ErrorModel {
    ErrorModel::IncludeError {
        path: "unknown"@,
        message: "Maximum include depth ("@ + decimal_digits(max) + ") exceeded"@,
    }
}

/// The error for an include whose file the host has not handed over.
pub open spec fn file_not_found(path: Seq<char>) -> ErrorModel {
    ErrorModel::IncludeError { path, message: "File not found in include paths"@ }
}

/// What a container stands for: itself, or nothing where only the syntax is
/// checked.
pub open spec fn built(env: ParseEnv, value: ValueModel) -> ValueModel {
    if env.syntax_only {
        ValueModel::Null
    } else {
        value
    }
}

/// How many includes may still nest at `depth`.
pub open spec fn include_budget(env: ParseEnv, depth: nat) -> nat {
    if depth <= env.max_include_depth {
        (env.max_include_depth - depth) as nat
    } else {
        0
    }
}

/// How many tokens stand at or after `pos`.
pub open spec fn tokens_left(tokens: Seq<TokenModel>, pos: int) -> nat {
    if 0 <= pos <= tokens.len() {
        (tokens.len() - pos) as nat
    } else {
        0
    }
}

/// The value that starts at `pos`, and the number of tokens that it takes
/// after its first.
///
/// A string, an integer, a boolean and `null` stand for themselves. A double
/// stands for the bit pattern that the host has handed over for its literal.
/// `{` starts an object and `[` an array. An identifier followed by `{` starts
/// a named object: an object with one entry, which holds the object of the
/// fields under the identifier's text. Any other identifier is an enum value.
/// An include directive stands for the value of the file that it names, and a
/// variable reference for the variable's value. Any other token is an error
/// at its place.
pub open spec fn parse_value_spec(
    env: ParseEnv,
    tokens: Seq<TokenModel>,
    pos: int,
    depth: nat,
) -> Result<(ValueModel, nat), ErrorModel>
    decreases include_budget(env, depth), tokens_left(tokens, pos), 1nat,
{
    if pos < 0 || pos >= tokens.len() {
        Err(end_of_input())
    } else {
        let token = tokens[pos];
        match token.kind {
            TokenType::String => Ok((ValueModel::Str(token.lexeme), 0nat)),
            TokenType::Integer => match decimal_within(token.lexeme, i64::MAX as nat) {
                Some(v) => Ok((ValueModel::Integer(v as int), 0nat)),
                None => Err(syntax_at("Invalid integer: "@ + token.lexeme, token)),
            },
            TokenType::Double => match lookup(env.numbers, token.lexeme) {
                Some(bits) => Ok((ValueModel::Double(bits), 0nat)),
                None => Err(syntax_at("Invalid double: "@ + token.lexeme, token)),
            },
            TokenType::Boolean => if token.lexeme == "true"@ {
                Ok((ValueModel::Boolean(true), 0nat))
            } else if token.lexeme == "false"@ {
                Ok((ValueModel::Boolean(false), 0nat))
            } else {
                Err(syntax_at("Invalid boolean: "@ + token.lexeme, token))
            },
            TokenType::Null => Ok((ValueModel::Null, 0nat)),
            TokenType::LeftBrace => match parse_fields_spec(
                env,
                tokens,
                pos + 1,
                depth,
                Seq::empty(),
            ) {
                Err(e) => Err(e),
                Ok((entries, taken)) => Ok((built(env, ValueModel::Object(entries)), taken)),
            },
            TokenType::LeftBracket => match parse_elements_spec(
                env,
                tokens,
                pos + 1,
                depth,
                Seq::empty(),
            ) {
                Err(e) => Err(e),
                Ok((items, taken)) => Ok((built(env, ValueModel::Array(items)), taken)),
            },
            TokenType::Identifier => if pos + 1 < tokens.len() && tokens[pos + 1].kind
                == TokenType::LeftBrace {
                match parse_fields_spec(env, tokens, pos + 2, depth, Seq::empty()) {
                    Err(e) => Err(e),
                    Ok((entries, taken)) => Ok(
                        (
                            built(
                                env,
                                ValueModel::Object(
                                    seq![(token.lexeme, ValueModel::Object(entries))],
                                ),
                            ),
                            taken + 1,
                        ),
                    ),
                }
            } else {
                Ok((ValueModel::Enum(token.lexeme), 0nat))
            },
            TokenType::Include => parse_include_spec(env, tokens, pos, depth),
            TokenType::Import => parse_include_spec(env, tokens, pos, depth),
            TokenType::EnvVar => match env_var_value(env, token.lexeme) {
                Ok(value) => Ok((value, 0nat)),
                Err(e) => Err(e),
            },
            _ => Err(syntax_at("Unexpected token: "@ + token.lexeme, token)),
        }
    }
}

/// The fields from `pos` up to the closing brace, assigned in order to `acc`,
/// and the number of tokens taken, closing brace included. A field is an
/// identifier, `=`, a value and an optional `;`.
pub open spec fn parse_fields_spec(
    env: ParseEnv,
    tokens: Seq<TokenModel>,
    pos: int,
    depth: nat,
    acc: Entries,
) -> Result<(Entries, nat), ErrorModel>
    decreases include_budget(env, depth), tokens_left(tokens, pos), 0nat,
{
    if pos < 0 || pos >= tokens.len() {
        Err(end_of_input())
    } else if tokens[pos].kind == TokenType::RightBrace {
        Ok((acc, 1nat))
    } else if tokens[pos].kind == TokenType::Eof {
        Err(expected(TokenType::RightBrace, tokens[pos]))
    } else if tokens[pos].kind != TokenType::Identifier {
        Err(expected(TokenType::Identifier, tokens[pos]))
    } else if pos + 1 >= tokens.len() {
        Err(end_of_input())
    } else if tokens[pos + 1].kind != TokenType::Equals {
        Err(expected(TokenType::Equals, tokens[pos + 1]))
    } else {
        match parse_value_spec(env, tokens, pos + 2, depth) {
            Err(e) => Err(e),
            Ok((value, more)) => {
                let after = pos + 3 + more;
                let semicolon: nat = if after < tokens.len() && tokens[after].kind
                    == TokenType::Semicolon {
                    1
                } else {
                    0
                };
                let next = if env.syntax_only {
                    acc
                } else {
                    entries_insert(acc, tokens[pos].lexeme, value)
                };
                match parse_fields_spec(env, tokens, after + semicolon, depth, next) {
                    Err(e) => Err(e),
                    Ok((entries, taken)) => Ok((entries, taken + 3 + more + semicolon)),
                }
            },
        }
    }
}

/// The elements from `pos` up to the closing bracket, appended in order to
/// `acc`, and the number of tokens taken, closing bracket included. An element
/// is a value and an optional `,`.
pub open spec fn parse_elements_spec(
    env: ParseEnv,
    tokens: Seq<TokenModel>,
    pos: int,
    depth: nat,
    acc: Seq<ValueModel>,
) -> Result<(Seq<ValueModel>, nat), ErrorModel>
    decreases include_budget(env, depth), tokens_left(tokens, pos), 2nat,
{
    if pos < 0 || pos >= tokens.len() {
        Err(end_of_input())
    } else if tokens[pos].kind == TokenType::RightBracket {
        Ok((acc, 1nat))
    } else if tokens[pos].kind == TokenType::Eof {
        Err(expected(TokenType::RightBracket, tokens[pos]))
    } else {
        match parse_value_spec(env, tokens, pos, depth) {
            Err(e) => Err(e),
            Ok((value, more)) => {
                let after = pos + 1 + more;
                let comma: nat = if after < tokens.len() && tokens[after].kind
                    == TokenType::Comma {
                    1
                } else {
                    0
                };
                let next = if env.syntax_only {
                    acc
                } else {
                    acc.push(value)
                };
                match parse_elements_spec(env, tokens, after + comma, depth, next) {
                    Err(e) => Err(e),
                    Ok((items, taken)) => Ok((items, taken + 1 + more + comma)),
                }
            },
        }
    }
}

/// The value of the include directive at `pos`: the value that the named
/// file's text parses to, one level deeper. The directive takes two tokens.
pub open spec fn parse_include_spec(
    env: ParseEnv,
    tokens: Seq<TokenModel>,
    pos: int,
    depth: nat,
) -> Result<(ValueModel, nat), ErrorModel>
    decreases include_budget(env, depth), tokens_left(tokens, pos), 0nat,
{
    if pos < 0 || pos >= tokens.len() {
        Err(end_of_input())
    } else if !env.process_includes {
        Err(syntax_at("Include directives are disabled"@, tokens[pos]))
    } else if depth >= env.max_include_depth {
        Err(depth_exceeded(env.max_include_depth))
    } else if pos + 1 >= tokens.len() {
        Err(end_of_input())
    } else if tokens[pos + 1].kind != TokenType::String {
        Err(expected(TokenType::String, tokens[pos + 1]))
    } else {
        match lookup(env.files, tokens[pos + 1].lexeme) {
            None => Err(file_not_found(tokens[pos + 1].lexeme)),
            Some(content) => match lex(content) {
                Err(e) => Err(e),
                Ok(inner) => match parse_value_spec(env, inner, 0, depth + 1) {
                    Err(e) => Err(e),
                    Ok((value, _)) => Ok((value, 1nat)),
                },
            },
        }
    }
}

/// The value that a source text stands for: the first value of its token
/// sequence. Tokens behind that value are not looked at.
pub open spec fn parse_spec(env: ParseEnv, input: Seq<char>) -> Result<ValueModel, ErrorModel> {
    match lex(input) {
        Err(e) => Err(e),
        Ok(tokens) => match parse_value_spec(env, tokens, 0, 0) {
            Err(e) => Err(e),
            Ok((value, _)) => Ok(value),
        },
    }
}

/// The model of a parse result.
pub open spec fn parsed(r: CfgppResult<CfgppValue>) -> Result<ValueModel, ErrorModel> {
    match r {
        Ok(value) => Ok(value@),
        Err(e) => Err(e@),
    }
}

/// `r` stands for `model`: the same value and, counted from `pos`, the same
/// number of tokens, or the same error.
pub open spec fn value_agrees(
    r: Result<(CfgppValue, usize), CfgppError>,
    model: Result<(ValueModel, nat), ErrorModel>,
    pos: int,
) -> bool {
    match r {
        Ok((value, next)) => model == Ok::<(ValueModel, nat), ErrorModel>(
            (value@, (next - pos - 1) as nat),
        ) && next > pos,
        Err(e) => model == Err::<(ValueModel, nat), ErrorModel>(e@),
    }
}

/// `r` with `taken` more tokens counted.
pub open spec fn taken_after<T>(taken: int, r: Result<(T, nat), ErrorModel>) -> Result<
    (T, nat),
    ErrorModel,
> {
    match r {
        Ok((found, n)) => Ok((found, (n + taken) as nat)),
        Err(e) => Err(e),
    }
}

/// What a source refers to and the parser's host has to hand over.
#[derive(Debug, Clone, PartialEq)]
pub enum HostRequest {
    /// The bit pattern of a double, written as this literal.
    Number(String),
    /// The value of the environment variable of this name.
    Variable(String),
    /// The text of the file that an include names by this path.
    File(String),
}

/// The mathematical content of a [`HostRequest`].
pub enum RequestModel {
    Number(Seq<char>),
    Variable(Seq<char>),
    File(Seq<char>),
}

impl View for HostRequest {
    type V = RequestModel;

    open spec fn view(&self) -> RequestModel {
        match *self {
            HostRequest::Number(text) => RequestModel::Number(text@),
            HostRequest::Variable(name) => RequestModel::Variable(name@),
            HostRequest::File(path) => RequestModel::File(path@),
        }
    }
}

/// The models of a sequence of requests.
pub open spec fn requests_view(requests: Seq<HostRequest>) -> Seq<RequestModel> {
    Seq::new(requests.len(), |i: int| requests[i]@)
}

/// What the tokens from `i` on refer to, in their order: each double, each
/// variable reference, and each include directive that a string follows.
pub open spec fn requests_from(tokens: Seq<TokenModel>, i: int) -> Seq<RequestModel>
    decreases tokens.len() - i,
{
    if i < 0 || i >= tokens.len() {
        Seq::empty()
    } else {
        let rest = requests_from(tokens, i + 1);
        match tokens[i].kind {
            TokenType::Double => seq![RequestModel::Number(tokens[i].lexeme)] + rest,
            TokenType::EnvVar => seq![RequestModel::Variable(env_name(tokens[i].lexeme))] + rest,
            TokenType::Include | TokenType::Import => if i + 1 < tokens.len() && tokens[i
                + 1].kind == TokenType::String {
                seq![RequestModel::File(tokens[i + 1].lexeme)] + rest
            } else {
                rest
            },
            _ => rest,
        }
    }
}

/// The objects among `values[i..]` poured in order into `acc`: of two entries
/// with one key the later one stays. Values that are no objects are passed
/// over.
pub open spec fn merge_from(acc: Entries, values: Seq<ValueModel>, i: int) -> Entries
    decreases values.len() - i,
{
    if 0 <= i < values.len() {
        let next = match values[i] {
            ValueModel::Object(entries) => entries_insert_all(acc, entries, 0),
            _ => acc,
        };
        merge_from(next, values, i + 1)
    } else {
        acc
    }
}

/// `prefix` followed by `text`.
fn message_with(prefix: &str, text: &str) -> (message: String)
    ensures
        message@ == prefix@ + text@,
{
    let mut message = String::new();
    push_text(&mut message, prefix);
    push_text(&mut message, text);
    message
}

/// A syntax error at the place of `token`.
fn syntax_error_at(message: &str, token: &Token) -> (e: CfgppError)
    ensures
        e@ == syntax_at(message@, token@),
{
    CfgppError::syntax_error(message, token.line, token.column)
}

/// The error for a token of another kind than the grammar needs.
fn expected_error(kind: TokenType, found: &Token) -> (e: CfgppError)
    ensures
        e@ == expected(kind, found@),
{
    let mut message = String::new();
    push_text(&mut message, "Expected ");
    push_text(&mut message, kind.as_str());
    push_text(&mut message, ", found ");
    push_text(&mut message, found.token_type.as_str());
    syntax_error_at(message.as_str(), found)
}

/// The value that the last entry of `table` under `key` holds.
fn find_text<'a>(table: &'a Vec<(String, String)>, key: &String) -> (r: Option<&'a String>)
    ensures
        match r {
            Some(value) => lookup(texts_view(table@), key@) == Some(value@),
            None => lookup(texts_view(table@), key@) is None,
        },
{
    let ghost all = texts_view(table@);
    let mut i: usize = table.len();
    assert(all.take(i as int) == all);
    while i > 0
        invariant
            i <= table@.len(),
            all == texts_view(table@),
            lookup(all, key@) == lookup(all.take(i as int), key@),
        decreases i,
    {
        assert(all.take(i as int).last() == all[i - 1]);
        assert(all.take(i as int).drop_last() == all.take(i - 1));
        if table[i - 1].0 == *key {
            return Some(&table[i - 1].1);
        }
        i = i - 1;
    }
    None
}

/// The number that the last entry of `table` under `key` holds.
fn find_number(table: &Vec<(String, u64)>, key: &String) -> (r: Option<u64>)
    ensures
        r == lookup(numbers_view(table@), key@),
{
    let ghost all = numbers_view(table@);
    let mut i: usize = table.len();
    assert(all.take(i as int) == all);
    while i > 0
        invariant
            i <= table@.len(),
            all == numbers_view(table@),
            lookup(all, key@) == lookup(all.take(i as int), key@),
        decreases i,
    {
        assert(all.take(i as int).last() == all[i - 1]);
        assert(all.take(i as int).drop_last() == all.take(i - 1));
        if table[i - 1].0 == *key {
            return Some(table[i - 1].1);
        }
        i = i - 1;
    }
    None
}

/// The name and the default of a variable reference.
fn split_reference(lexeme: &String) -> (r: (String, Option<String>))
    ensures
        r.0@ == env_name(lexeme@),
        match r.1 {
            Some(default) => env_default(lexeme@) == Some(default@),
            None => env_default(lexeme@) is None,
        },
{
    let chars = chars_of(lexeme.as_str());
    let n = chars.len();
    let (from, to): (usize, usize) = if n >= 3 {
        (2, n - 1)
    } else {
        (0, 0)
    };
    let ghost content = env_content(lexeme@);
    assert(content == chars@.subrange(from as int, to as int));
    let mut k: usize = from;
    while k < to && k + 1 < to
        invariant
            from <= k <= to <= n,
            n == chars@.len(),
            content == chars@.subrange(from as int, to as int),
            content == env_content(lexeme@),
            default_marker(content, 0) == default_marker(content, k - from),
        decreases to - k,
    {
        assert(content[k - from] == chars@[k as int]);
        assert(content[k - from + 1] == chars@[k + 1]);
        if chars[k] == ':' && chars[k + 1] == '-' {
            assert(default_marker(content, 0) == k - from);
            assert(content.subrange(0, k - from) == chars@.subrange(from as int, k as int));
            assert(content.subrange(k - from + 2, content.len() as int) == chars@.subrange(
                k + 2,
                to as int,
            ));
            return (string_of(&chars, from, k), Some(string_of(&chars, k + 2, to)));
        }
        k = k + 1;
    }
    (string_of(&chars, from, to), None)
}

/// What `tokens` refer to and the host has to hand over before they are
/// parsed.
pub fn host_requests(tokens: &Vec<Token>) -> (requests: Vec<HostRequest>)
    ensures
        requests_view(requests@) == requests_from(tokens_view(tokens@), 0),
{
    let ghost models = tokens_view(tokens@);
    let mut requests: Vec<HostRequest> = Vec::new();
    let mut i: usize = 0;
    assert(requests_view(requests@) =~= Seq::empty());
    while i < tokens.len()
        invariant
            i <= tokens@.len(),
            models == tokens_view(tokens@),
            requests_from(models, 0) == requests_view(requests@) + requests_from(models, i as int),
        decreases tokens@.len() - i,
    {
        let ghost before = requests_view(requests@);
        let ghost rest = requests_from(models, i + 1);
        let token = &tokens[i];
        match token.token_type {
            TokenType::Double => {
                requests.push(HostRequest::Number(token.value.clone()));
                assert(requests_view(requests@) =~= before + seq![
                    RequestModel::Number(token.value@),
                ]);
                assert(before + (seq![RequestModel::Number(token.value@)] + rest)
                    =~= requests_view(requests@) + rest);
            },
            TokenType::EnvVar => {
                let (name, _) = split_reference(&token.value);
                requests.push(HostRequest::Variable(name));
                assert(requests_view(requests@) =~= before + seq![
                    RequestModel::Variable(env_name(token.value@)),
                ]);
                assert(before + (seq![RequestModel::Variable(env_name(token.value@))] + rest)
                    =~= requests_view(requests@) + rest);
            },
            TokenType::Include | TokenType::Import => {
                if i + 1 < tokens.len() && tokens[i + 1].token_type == TokenType::String {
                    let path = tokens[i + 1].value.clone();
                    requests.push(HostRequest::File(path));
                    assert(requests_view(requests@) =~= before + seq![
                        RequestModel::File(tokens[i + 1].value@),
                    ]);
                    assert(before + (seq![RequestModel::File(tokens[i + 1].value@)] + rest)
                        =~= requests_view(requests@) + rest);
                }
            },
            _ => {},
        }
        i = i + 1;
    }
    assert(requests_view(requests@) + Seq::<RequestModel>::empty() == requests_view(requests@));
    requests
}

/// One object that holds the entries of all objects among `values`, poured in
/// order: of two entries with one key the later one stays.
pub fn merge_objects(values: Vec<CfgppValue>) -> (merged: CfgppValue)
    ensures
        merged@ == ValueModel::Object(merge_from(Seq::empty(), values_view(values@), 0)),
        (forall|i: int| 0 <= i < values@.len() ==> (#[trigger] values@[i])@.wf()) ==> merged@.wf(),
{
    proof {
        if forall|i: int| 0 <= i < values@.len() ==> (#[trigger] values@[i])@.wf() {
            let models = values_view(values@);
            assert forall|i: int| 0 <= i < models.len() implies (#[trigger] models[i]).wf() by {
                assert(models[i] == values@[i]@);
            }
            crate::laws::lemma_merge_wf(Seq::empty(), models, 0);
        }
    }
    let mut acc: Vec<(String, CfgppValue)> = Vec::new();
    let ghost given = values@;
    let ghost models = values_view(values@);
    assert(entries_view(acc@) =~= Seq::empty());
    for value in it: values
        invariant
            it.seq() == given,
            models == values_view(given),
            merge_from(Seq::empty(), models, 0) == merge_from(
                entries_view(acc@),
                models,
                it.index() as int,
            ),
    {
        match value {
            CfgppValue::Object(entries) => {
                proof {
                    lemma_object_view(entries);
                }
                let ghost poured = entries_view(entries@);
                let ghost start = entries_view(acc@);
                let ghost inner = entries@;
                for entry in at: entries
                    invariant
                        at.seq() == inner,
                        poured == entries_view(inner),
                        entries_insert_all(start, poured, 0) == entries_insert_all(
                            entries_view(acc@),
                            poured,
                            at.index() as int,
                        ),
                {
                    let (key, item) = entry;
                    insert_entry(&mut acc, key, item);
                }
            },
            _ => {},
        }
    }
    proof {
        lemma_object_view(acc);
    }
    CfgppValue::Object(acc)
}

/// A parser with its options and with what its host has handed over.
pub struct Parser {
    options: ParserOptions,
    variables: Vec<(String, String)>,
    files: Vec<(String, String)>,
    numbers: Vec<(String, u64)>,
}

/// What a parse under `options` depends on before the host has handed
/// anything over.
pub open spec fn initial_env(options: ParserOptions) -> ParseEnv {
    ParseEnv {
        expand_env_vars: options.expand_env_vars,
        process_includes: options.process_includes,
        max_include_depth: options.max_include_depth as nat,
        syntax_only: options.syntax_only,
        variables: Seq::empty(),
        files: Seq::empty(),
        numbers: Seq::empty(),
    }
}

impl Parser {
    /// What a parse by this parser depends on besides the source text.
    pub closed spec fn env(&self) -> ParseEnv {
        ParseEnv {
            expand_env_vars: self.options.expand_env_vars,
            process_includes: self.options.process_includes,
            max_include_depth: self.options.max_include_depth as nat,
            syntax_only: self.options.syntax_only,
            variables: texts_view(self.variables@),
            files: texts_view(self.files@),
            numbers: numbers_view(self.numbers@),
        }
    }

    /// The options that the parser was made with.
    pub closed spec fn spec_options(&self) -> ParserOptions {
        self.options
    }

    /// A parser with the default options.
    pub fn new() -> (parser: Self)
        ensures
            parser.env() == (ParseEnv {
                expand_env_vars: true,
                process_includes: true,
                max_include_depth: 10,
                syntax_only: false,
                variables: Seq::empty(),
                files: Seq::empty(),
                numbers: Seq::empty(),
            }),
    {
        Self::with_options(ParserOptions::default())
    }

    /// A parser with the given options, to which nothing has been handed over.
    pub fn with_options(options: ParserOptions) -> (parser: Self)
        ensures
            parser.env() == initial_env(options),
            parser.spec_options() == options,
    {
        let parser = Parser {
            options,
            variables: Vec::new(),
            files: Vec::new(),
            numbers: Vec::new(),
        };
        assert(texts_view(parser.variables@) =~= Seq::empty());
        assert(texts_view(parser.files@) =~= Seq::empty());
        assert(numbers_view(parser.numbers@) =~= Seq::empty());
        parser
    }

    /// The options that the parser was made with.
    pub fn options(&self) -> (options: &ParserOptions)
        ensures
            *options == self.spec_options(),
    {
        &self.options
    }

    /// Hands over the value of an environment variable.
    pub fn define_variable(&mut self, name: &str, value: &str)
        ensures
            final(self).env() == (ParseEnv {
                variables: old(self).env().variables.push((name@, value@)),
                ..old(self).env()
            }),
            final(self).spec_options() == old(self).spec_options(),
    {
        self.variables.push((name.to_owned(), value.to_owned()));
        assert(texts_view(self.variables@) =~= texts_view(old(self).variables@).push(
            (name@, value@),
        ));
    }

    /// Hands over the text of the file that includes name by `path`.
    pub fn add_file(&mut self, path: &str, content: &str)
        ensures
            final(self).env() == (ParseEnv {
                files: old(self).env().files.push((path@, content@)),
                ..old(self).env()
            }),
            final(self).spec_options() == old(self).spec_options(),
    {
        self.files.push((path.to_owned(), content.to_owned()));
        assert(texts_view(self.files@) =~= texts_view(old(self).files@).push((path@, content@)));
    }

    /// Hands over the IEEE 754 binary64 bit pattern of the double that the
    /// source writes as `literal`.
    pub fn define_number(&mut self, literal: &str, bits: u64)
        ensures
            final(self).env() == (ParseEnv {
                numbers: old(self).env().numbers.push((literal@, bits)),
                ..old(self).env()
            }),
            final(self).spec_options() == old(self).spec_options(),
    {
        self.numbers.push((literal.to_owned(), bits));
        assert(numbers_view(self.numbers@) =~= numbers_view(old(self).numbers@).push(
            (literal@, bits),
        ));
    }

    /// The value of a variable reference.
    fn parse_env_var(&self, token: &Token) -> (r: CfgppResult<CfgppValue>)
        ensures
            parsed(r) == env_var_value(self.env(), token@.lexeme),
    {
        if !self.options.expand_env_vars {
            return Ok(CfgppValue::String(token.value.clone()));
        }
        let (name, default) = split_reference(&token.value);
        match find_text(&self.variables, &name) {
            Some(value) => Ok(CfgppValue::String(value.clone())),
            None => match default {
                Some(text) => Ok(CfgppValue::String(text)),
                None => Err(
                    CfgppError::env_var_error(name.as_str(), "Environment variable not found"),
                ),
            },
        }
    }

    /// The value of the include directive at `pos`.
    fn parse_include(&self, tokens: &Vec<Token>, pos: usize, depth: usize) -> (r: Result<
        (CfgppValue, usize),
        CfgppError,
    >)
        requires
            pos < tokens@.len(),
        ensures
            value_agrees(
                r,
                parse_include_spec(self.env(), tokens_view(tokens@), pos as int, depth as nat),
                pos as int,
            ),
            r is Ok ==> r->Ok_0.1 <= tokens@.len(),
        decreases
            include_budget(self.env(), depth as nat),
            tokens_left(tokens_view(tokens@), pos as int),
            0nat,
    {
        let token = &tokens[pos];
        if !self.options.process_includes {
            return Err(syntax_error_at("Include directives are disabled", token));
        }
        if depth >= self.options.max_include_depth {
            let mut message = String::new();
            push_text(&mut message, "Maximum include depth (");
            push_decimal(&mut message, self.options.max_include_depth);
            push_text(&mut message, ") exceeded");
            return Err(CfgppError::include_error("unknown", message.as_str()));
        }
        let n = tokens.len();
        if pos + 1 >= n {
            return Err(CfgppError::parse_error("Unexpected end of input"));
        }
        let path = &tokens[pos + 1];
        if path.token_type != TokenType::String {
            return Err(expected_error(TokenType::String, path));
        }
        match find_text(&self.files, &path.value) {
            None => Err(
                CfgppError::include_error(path.value.as_str(), "File not found in include paths"),
            ),
            Some(content) => match tokenize_text(content.as_str()) {
                Err(e) => Err(e),
                Ok(inner) => match self.parse_value(&inner, 0, depth + 1) {
                    Err(e) => Err(e),
                    Ok((value, _)) => Ok((value, pos + 2)),
                },
            },
        }
    }

    /// The fields from `start` up to the closing brace.
    fn parse_object(&self, tokens: &Vec<Token>, start: usize, depth: usize) -> (r: Result<
        (Vec<(String, CfgppValue)>, usize),
        CfgppError,
    >)
        requires
            start <= tokens@.len(),
        ensures
            match r {
                Ok((entries, next)) => parse_fields_spec(
                    self.env(),
                    tokens_view(tokens@),
                    start as int,
                    depth as nat,
                    Seq::empty(),
                ) == Ok::<(Entries, nat), ErrorModel>(
                    (entries_view(entries@), (next - start) as nat),
                ) && start < next <= tokens@.len(),
                Err(e) => parse_fields_spec(
                    self.env(),
                    tokens_view(tokens@),
                    start as int,
                    depth as nat,
                    Seq::empty(),
                ) == Err::<(Entries, nat), ErrorModel>(e@),
            },
        decreases
            include_budget(self.env(), depth as nat),
            tokens_left(tokens_view(tokens@), start as int),
            0nat,
    {
        let ghost env = self.env();
        let ghost models = tokens_view(tokens@);
        let mut entries: Vec<(String, CfgppValue)> = Vec::new();
        let mut pos: usize = start;
        assert(entries_view(entries@) =~= Seq::empty());
        loop
            invariant
                start <= pos <= tokens@.len(),
                env == self.env(),
                models == tokens_view(tokens@),
                parse_fields_spec(env, models, start as int, depth as nat, Seq::empty())
                    == taken_after(
                    pos - start,
                    parse_fields_spec(env, models, pos as int, depth as nat, entries_view(entries@)),
                ),
            decreases tokens@.len() - pos,
        {
            if pos >= tokens.len() {
                return Err(CfgppError::parse_error("Unexpected end of input"));
            }
            let token = &tokens[pos];
            if token.token_type == TokenType::RightBrace {
                return Ok((entries, pos + 1));
            }
            if token.token_type == TokenType::Eof {
                return Err(expected_error(TokenType::RightBrace, token));
            }
            if token.token_type != TokenType::Identifier {
                return Err(expected_error(TokenType::Identifier, token));
            }
            if pos + 1 >= tokens.len() {
                return Err(CfgppError::parse_error("Unexpected end of input"));
            }
            if tokens[pos + 1].token_type != TokenType::Equals {
                return Err(expected_error(TokenType::Equals, &tokens[pos + 1]));
            }
            let (value, next) = match self.parse_value(tokens, pos + 2, depth) {
                Ok(found) => found,
                Err(e) => {
                    return Err(e);
                },
            };
            if !self.options.syntax_only {
                insert_entry(&mut entries, token.value.clone(), value);
            }
            if next < tokens.len() && tokens[next].token_type == TokenType::Semicolon {
                pos = next + 1;
            } else {
                pos = next;
            }
        }
    }

    /// The elements from `start` up to the closing bracket.
    fn parse_array(&self, tokens: &Vec<Token>, start: usize, depth: usize) -> (r: Result<
        (Vec<CfgppValue>, usize),
        CfgppError,
    >)
        requires
            start <= tokens@.len(),
        ensures
            match r {
                Ok((items, next)) => parse_elements_spec(
                    self.env(),
                    tokens_view(tokens@),
                    start as int,
                    depth as nat,
                    Seq::empty(),
                ) == Ok::<(Seq<ValueModel>, nat), ErrorModel>(
                    (values_view(items@), (next - start) as nat),
                ) && start < next <= tokens@.len(),
                Err(e) => parse_elements_spec(
                    self.env(),
                    tokens_view(tokens@),
                    start as int,
                    depth as nat,
                    Seq::empty(),
                ) == Err::<(Seq<ValueModel>, nat), ErrorModel>(e@),
            },
        decreases
            include_budget(self.env(), depth as nat),
            tokens_left(tokens_view(tokens@), start as int),
            2nat,
    {
        let ghost env = self.env();
        let ghost models = tokens_view(tokens@);
        let mut items: Vec<CfgppValue> = Vec::new();
        let mut pos: usize = start;
        assert(values_view(items@) =~= Seq::empty());
        loop
            invariant
                start <= pos <= tokens@.len(),
                env == self.env(),
                models == tokens_view(tokens@),
                parse_elements_spec(env, models, start as int, depth as nat, Seq::empty())
                    == taken_after(
                    pos - start,
                    parse_elements_spec(env, models, pos as int, depth as nat, values_view(items@)),
                ),
            decreases tokens@.len() - pos,
        {
            if pos >= tokens.len() {
                return Err(CfgppError::parse_error("Unexpected end of input"));
            }
            let token = &tokens[pos];
            if token.token_type == TokenType::RightBracket {
                return Ok((items, pos + 1));
            }
            if token.token_type == TokenType::Eof {
                return Err(expected_error(TokenType::RightBracket, token));
            }
            let (value, next) = match self.parse_value(tokens, pos, depth) {
                Ok(found) => found,
                Err(e) => {
                    return Err(e);
                },
            };
            if !self.options.syntax_only {
                let ghost before = values_view(items@);
                items.push(value);
                assert(values_view(items@) =~= before.push(value@));
            }
            if next < tokens.len() && tokens[next].token_type == TokenType::Comma {
                pos = next + 1;
            } else {
                pos = next;
            }
        }
    }

    /// The value that starts at `pos`.
    fn parse_value(&self, tokens: &Vec<Token>, pos: usize, depth: usize) -> (r: Result<
        (CfgppValue, usize),
        CfgppError,
    >)
        ensures
            value_agrees(
                r,
                parse_value_spec(self.env(), tokens_view(tokens@), pos as int, depth as nat),
                pos as int,
            ),
            r is Ok ==> r->Ok_0.1 <= tokens@.len(),
        decreases
            include_budget(self.env(), depth as nat),
            tokens_left(tokens_view(tokens@), pos as int),
            1nat,
    {
        if pos >= tokens.len() {
            return Err(CfgppError::parse_error("Unexpected end of input"));
        }
        let token = &tokens[pos];
        match token.token_type {
            TokenType::String => Ok((CfgppValue::String(token.value.clone()), pos + 1)),
            TokenType::Integer => {
                let digits = chars_of(token.value.as_str());
                assert(digits@.subrange(0, digits@.len() as int) == digits@);
                match parse_decimal(&digits, 0, digits.len(), 0x7fff_ffff_ffff_ffff) {
                    Some(v) => Ok((CfgppValue::Integer(v as i64), pos + 1)),
                    None => Err(
                        syntax_error_at(
                            message_with("Invalid integer: ", token.value.as_str()).as_str(),
                            token,
                        ),
                    ),
                }
            },
            TokenType::Double => match find_number(&self.numbers, &token.value) {
                Some(bits) => Ok((CfgppValue::Double(bits), pos + 1)),
                None => Err(
                    syntax_error_at(
                        message_with("Invalid double: ", token.value.as_str()).as_str(),
                        token,
                    ),
                ),
            },
            TokenType::Boolean => {
                let word = chars_of(token.value.as_str());
                if chars_equal(&word, "true") {
                    Ok((CfgppValue::Boolean(true), pos + 1))
                } else if chars_equal(&word, "false") {
                    Ok((CfgppValue::Boolean(false), pos + 1))
                } else {
                    Err(
                        syntax_error_at(
                            message_with("Invalid boolean: ", token.value.as_str()).as_str(),
                            token,
                        ),
                    )
                }
            },
            TokenType::Null => Ok((CfgppValue::Null, pos + 1)),
            TokenType::LeftBrace => match self.parse_object(tokens, pos + 1, depth) {
                Err(e) => Err(e),
                Ok((entries, next)) => {
                    proof {
                        lemma_object_view(entries);
                    }
                    if self.options.syntax_only {
                        Ok((CfgppValue::Null, next))
                    } else {
                        Ok((CfgppValue::Object(entries), next))
                    }
                },
            },
            TokenType::LeftBracket => match self.parse_array(tokens, pos + 1, depth) {
                Err(e) => Err(e),
                Ok((items, next)) => {
                    proof {
                        lemma_array_view(items);
                    }
                    if self.options.syntax_only {
                        Ok((CfgppValue::Null, next))
                    } else {
                        Ok((CfgppValue::Array(items), next))
                    }
                },
            },
            TokenType::Identifier => self.parse_identifier_or_object(tokens, pos, depth),
            TokenType::Include => self.parse_include(tokens, pos, depth),
            TokenType::Import => self.parse_include(tokens, pos, depth),
            TokenType::EnvVar => match self.parse_env_var(token) {
                Ok(value) => Ok((value, pos + 1)),
                Err(e) => Err(e),
            },
            _ => Err(
                syntax_error_at(
                    message_with("Unexpected token: ", token.value.as_str()).as_str(),
                    token,
                ),
            ),
        }
    }

    /// The value that the identifier at `pos` starts: followed by `{` an
    /// object that holds the object of the fields under the identifier's name,
    /// else an enum value of the identifier's text.
    fn parse_identifier_or_object(&self, tokens: &Vec<Token>, pos: usize, depth: usize) -> (r:
        Result<(CfgppValue, usize), CfgppError>)
        requires
            pos < tokens@.len(),
            tokens@[pos as int].token_type == TokenType::Identifier,
        ensures
            value_agrees(
                r,
                parse_value_spec(self.env(), tokens_view(tokens@), pos as int, depth as nat),
                pos as int,
            ),
            r is Ok ==> r->Ok_0.1 <= tokens@.len(),
        decreases
            include_budget(self.env(), depth as nat),
            tokens_left(tokens_view(tokens@), pos as int),
            0nat,
    {
        let token = &tokens[pos];
        let n = tokens.len();
        if pos + 1 < n && tokens[pos + 1].token_type == TokenType::LeftBrace {
            match self.parse_object(tokens, pos + 2, depth) {
                Err(e) => Err(e),
                Ok((entries, next)) => {
                    if self.options.syntax_only {
                        Ok((CfgppValue::Null, next))
                    } else {
                        let mut outer: Vec<(String, CfgppValue)> = Vec::new();
                        proof {
                            lemma_object_view(entries);
                        }
                        outer.push((token.value.clone(), CfgppValue::Object(entries)));
                        proof {
                            lemma_object_view(outer);
                            assert(entries_view(outer@) =~= seq![
                                (token.value@, ValueModel::Object(entries_view(entries@))),
                            ]);
                        }
                        Ok((CfgppValue::Object(outer), next))
                    }
                },
            }
        } else {
            Ok((CfgppValue::Enum(token.value.clone()), pos + 1))
        }
    }

    /// Parses a source text: its first value, or the first error. What the
    /// source refers to is taken from what the host has handed over.
    pub fn parse(&mut self, input: &str) -> (r: CfgppResult<CfgppValue>)
        ensures
            final(self).env() == old(self).env(),
            final(self).spec_options() == old(self).spec_options(),
            parsed(r) == parse_spec(old(self).env(), input@),
            r is Ok ==> r->Ok_0@.wf(),
    {
        proof {
            crate::laws::lemma_parse_wf(self.env(), input@);
        }
        match tokenize_text(input) {
            Err(e) => Err(e),
            Ok(tokens) => match self.parse_value(&tokens, 0, 0) {
                Err(e) => Err(e),
                Ok((value, _)) => Ok(value),
            },
        }
    }

    /// What `input` refers to and the host has to hand over before `input`
    /// is parsed.
    pub fn requests(&self, input: &str) -> (r: CfgppResult<Vec<HostRequest>>)
        ensures
            match lex(input@) {
                Ok(tokens) => r is Ok && requests_view(r->Ok_0@) == requests_from(tokens, 0),
                Err(e) => r is Err && r->Err_0@ == e,
            },
    {
        match tokenize_text(input) {
            Err(e) => Err(e),
            Ok(tokens) => Ok(host_requests(&tokens)),
        }
    }

    /// Checks a source text against the grammar without building containers:
    /// succeeds where parsing with `syntax_only` set succeeds, and fails with
    /// the same error where it fails.
    pub fn validate_syntax(&mut self, input: &str) -> (r: CfgppResult<()>)
        ensures
            final(self).env() == old(self).env(),
            final(self).spec_options() == old(self).spec_options(),
            match parse_spec(ParseEnv { syntax_only: true, ..old(self).env() }, input@) {
                Ok(_) => r is Ok,
                Err(e) => r is Err && r->Err_0@ == e,
            },
    {
        let before = self.options.syntax_only;
        self.options.syntax_only = true;
        let result = self.parse(input);
        self.options.syntax_only = before;
        match result {
            Ok(_) => Ok(()),
            Err(e) => Err(e),
        }
    }
}

impl Default for Parser {
    /// A parser with the default options.
    fn default() -> (parser: Self)
        ensures
            parser.env() == (ParseEnv {
                expand_env_vars: true,
                process_includes: true,
                max_include_depth: 10,
                syntax_only: false,
                variables: Seq::empty(),
                files: Seq::empty(),
                numbers: Seq::empty(),
            }),
    {
        Parser::new()
    }
}

} // verus!
