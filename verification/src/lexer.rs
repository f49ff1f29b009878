//! The scanner: from source text to a sequence of tokens with their places.

use vstd::prelude::*;
use vstd::string::*;
use crate::error::{CfgppError, CfgppResult, ErrorModel};
use crate::text::{
    char_is_digit,
    char_is_ident_part,
    char_is_ident_start,
    char_is_whitespace,
    char_utf8_width,
    chars_equal,
    decimal_digits,
    push_decimal,
    chars_of,
    is_digit,
    is_ident_part,
    is_ident_start,
    push_chars,
    push_text,
    skip_whitespace,
    slice_of,
    string_of,
    utf8_width,
};

verus! {

/// The kinds of token.
#[derive(Debug, Clone, Copy, PartialEq, Eq, Structural)]
pub enum TokenType {
    String,
    Integer,
    Double,
    Boolean,
    Null,
    Identifier,
    Enum,
    Include,
    Import,
    LeftBrace,
    RightBrace,
    LeftBracket,
    RightBracket,
    LeftParen,
    RightParen,
    Equals,
    Semicolon,
    Comma,
    Dot,
    Colon,
    Plus,
    Minus,
    Multiply,
    Divide,
    EnvVar,
    Namespace,
    Comment,
    Whitespace,
    Newline,
    Eof,
}

impl TokenType {
    /// The name of the kind, as diagnostics print it.
    pub open spec fn name(self) -> Seq<char> {
        match self {
            TokenType::String => "String"@,
            TokenType::Integer => "Integer"@,
            TokenType::Double => "Double"@,
            TokenType::Boolean => "Boolean"@,
            TokenType::Null => "Null"@,
            TokenType::Identifier => "Identifier"@,
            TokenType::Enum => "Enum"@,
            TokenType::Include => "Include"@,
            TokenType::Import => "Import"@,
            TokenType::LeftBrace => "LeftBrace"@,
            TokenType::RightBrace => "RightBrace"@,
            TokenType::LeftBracket => "LeftBracket"@,
            TokenType::RightBracket => "RightBracket"@,
            TokenType::LeftParen => "LeftParen"@,
            TokenType::RightParen => "RightParen"@,
            TokenType::Equals => "Equals"@,
            TokenType::Semicolon => "Semicolon"@,
            TokenType::Comma => "Comma"@,
            TokenType::Dot => "Dot"@,
            TokenType::Colon => "Colon"@,
            TokenType::Plus => "Plus"@,
            TokenType::Minus => "Minus"@,
            TokenType::Multiply => "Multiply"@,
            TokenType::Divide => "Divide"@,
            TokenType::EnvVar => "EnvVar"@,
            TokenType::Namespace => "Namespace"@,
            TokenType::Comment => "Comment"@,
            TokenType::Whitespace => "Whitespace"@,
            TokenType::Newline => "Newline"@,
            TokenType::Eof => "Eof"@,
        }
    }

    /// The name of the kind, as diagnostics print it.
    pub fn as_str(&self) -> (r: &'static str)
        ensures
            r@ == self.name(),
    {
        match self {
            TokenType::String => "String",
            TokenType::Integer => "Integer",
            TokenType::Double => "Double",
            TokenType::Boolean => "Boolean",
            TokenType::Null => "Null",
            TokenType::Identifier => "Identifier",
            TokenType::Enum => "Enum",
            TokenType::Include => "Include",
            TokenType::Import => "Import",
            TokenType::LeftBrace => "LeftBrace",
            TokenType::RightBrace => "RightBrace",
            TokenType::LeftBracket => "LeftBracket",
            TokenType::RightBracket => "RightBracket",
            TokenType::LeftParen => "LeftParen",
            TokenType::RightParen => "RightParen",
            TokenType::Equals => "Equals",
            TokenType::Semicolon => "Semicolon",
            TokenType::Comma => "Comma",
            TokenType::Dot => "Dot",
            TokenType::Colon => "Colon",
            TokenType::Plus => "Plus",
            TokenType::Minus => "Minus",
            TokenType::Multiply => "Multiply",
            TokenType::Divide => "Divide",
            TokenType::EnvVar => "EnvVar",
            TokenType::Namespace => "Namespace",
            TokenType::Comment => "Comment",
            TokenType::Whitespace => "Whitespace",
            TokenType::Newline => "Newline",
            TokenType::Eof => "Eof",
        }
    }
}

/// A token: its kind, its text, and the place where it starts. Lines and
/// columns count from one, `position` is the offset in bytes from the start of
/// the source.
#[derive(Debug, Clone, PartialEq)]
pub struct Token {
    pub token_type: TokenType,
    pub value: String,
    pub line: usize,
    pub column: usize,
    pub position: usize,
}

/// The mathematical content of a [`Token`].
pub struct TokenModel {
    pub kind: TokenType,
    pub lexeme: Seq<char>,
    pub line: nat,
    pub column: nat,
    pub position: nat,
}

impl View for Token {
    type V = TokenModel;

    open spec fn view(&self) -> TokenModel {
        TokenModel {
            kind: self.token_type,
            lexeme: self.value@,
            line: self.line as nat,
            column: self.column as nat,
            position: self.position as nat,
        }
    }
}

/// The models of a sequence of tokens.
pub open spec fn tokens_view(tokens: Seq<Token>) -> Seq<TokenModel> {
    Seq::new(tokens.len(), |i: int| tokens[i]@)
}

impl Token {
    pub fn new(token_type: TokenType, value: String, line: usize, column: usize, position: usize) -> (t:
        Self)
        ensures
            t@ == (TokenModel {
                kind: token_type,
                lexeme: value@,
                line: line as nat,
                column: column as nat,
                position: position as nat,
            }),
    {
        Token { token_type, value, line, column, position }
    }

    /// The token as diagnostics print it: kind, text and place.
    pub fn to_text(&self) -> (s: String)
        ensures
            s@ == self@.kind.name() + "("@ + self@.lexeme + ") at "@ + decimal_digits(self@.line)
                + ":"@ + decimal_digits(self@.column),
    {
        let mut s = String::new();
        push_text(&mut s, self.token_type.as_str());
        push_text(&mut s, "(");
        push_text(&mut s, self.value.as_str());
        push_text(&mut s, ") at ");
        push_decimal(&mut s, self.line);
        push_text(&mut s, ":");
        push_decimal(&mut s, self.column);
        assert(s@ =~= self@.kind.name() + "("@ + self@.lexeme + ") at "@ + decimal_digits(
            self@.line,
        ) + ":"@ + decimal_digits(self@.column));
        s
    }
}

/// The longest input, in characters, that the scanner takes.
pub const MAX_INPUT_CHARS: usize = 0x3fff_ffff;

/// A place in the source: line and column from one, offset in bytes from zero.
pub struct Place {
    pub line: nat,
    pub column: nat,
    pub offset: nat,
}

/// The place of the character at index `i`: a newline starts a new line at
/// column one, any other character moves one column on.
pub open spec fn place_at(chars: Seq<char>, i: int) -> Place
    decreases i,
{
    if i <= 0 || i > chars.len() {
        Place { line: 1, column: 1, offset: 0 }
    } else {
        let before = place_at(chars, i - 1);
        let c = chars[i - 1];
        if c == '\n' {
            Place { line: before.line + 1, column: 1, offset: before.offset + utf8_width(c) }
        } else {
            Place {
                line: before.line,
                column: before.column + 1,
                offset: before.offset + utf8_width(c),
            }
        }
    }
}

pub proof fn lemma_place_bounds(chars: Seq<char>, i: int)
    requires
        0 <= i <= chars.len(),
    ensures
        1 <= place_at(chars, i).line <= i + 1,
        1 <= place_at(chars, i).column <= i + 1,
        place_at(chars, i).offset <= 4 * i,
    decreases i,
{
    if i > 0 {
        lemma_place_bounds(chars, i - 1);
    }
}

/// Number of identifier characters from index `i` on.
pub open spec fn ident_run(chars: Seq<char>, i: int) -> nat
    decreases chars.len() - i,
{
    if 0 <= i < chars.len() && is_ident_part(chars[i]) {
        1 + ident_run(chars, i + 1)
    } else {
        0
    }
}

/// Number of characters from index `i` up to the end of the line.
pub open spec fn line_run(chars: Seq<char>, i: int) -> nat
    decreases chars.len() - i,
{
    if 0 <= i < chars.len() && chars[i] != '\n' {
        1 + line_run(chars, i + 1)
    } else {
        0
    }
}

/// What an escape sequence in a string literal stands for. An escape that is
/// not one of `\n \r \t \\ \"` stands for itself, backslash included.
pub open spec fn unescape(c: char) -> Seq<char> {
    if c == 'n' {
        seq!['\n']
    } else if c == 'r' {
        seq!['\r']
    } else if c == 't' {
        seq!['\t']
    } else if c == '\\' {
        seq!['\\']
    } else if c == '"' {
        seq!['"']
    } else {
        seq!['\\', c]
    }
}

/// The text of the string literal whose first character after the opening
/// quote is at index `i`, and the number of characters it takes, closing quote
/// included; nothing if the input ends first.
pub open spec fn string_body(chars: Seq<char>, i: int) -> Option<(Seq<char>, nat)>
    decreases chars.len() - i,
{
    if i < 0 || i >= chars.len() {
        None
    } else if chars[i] == '"' {
        Some((Seq::empty(), 1nat))
    } else if chars[i] == '\\' {
        if i + 1 >= chars.len() {
            None
        } else {
            match string_body(chars, i + 2) {
                None => None,
                Some((rest, n)) => Some((unescape(chars[i + 1]) + rest, n + 2)),
            }
        }
    } else {
        match string_body(chars, i + 1) {
            None => None,
            Some((rest, n)) => Some((seq![chars[i]] + rest, n + 1)),
        }
    }
}

/// Number of characters from index `i` up to and including the `}` that closes
/// `depth` open braces; nothing if the input ends first.
pub open spec fn brace_body(chars: Seq<char>, i: int, depth: nat) -> Option<nat>
    decreases chars.len() - i,
{
    if i < 0 || i >= chars.len() {
        None
    } else if chars[i] == '}' && depth <= 1 {
        Some(1nat)
    } else {
        let inner: nat = if chars[i] == '}' {
            (depth - 1) as nat
        } else if chars[i] == '{' {
            depth + 1
        } else {
            depth
        };
        match brace_body(chars, i + 1, inner) {
            None => None,
            Some(n) => Some(n + 1),
        }
    }
}

/// Number of characters of a number from index `i` on, and whether the number
/// is a double, given whether a `.` and an exponent marker came before.
/// Digits go on; a first `.` goes on unless an exponent came; a first `e` or
/// `E` goes on with one optional sign behind it; anything else ends the number.
pub open spec fn number_run(chars: Seq<char>, i: int, dot: bool, exp: bool) -> (nat, bool)
    decreases chars.len() - i,
{
    if i < 0 || i >= chars.len() {
        (0nat, dot || exp)
    } else if is_digit(chars[i]) {
        let (n, f) = number_run(chars, i + 1, dot, exp);
        (n + 1, f)
    } else if chars[i] == '.' && !dot && !exp {
        let (n, f) = number_run(chars, i + 1, true, exp);
        (n + 1, f)
    } else if (chars[i] == 'e' || chars[i] == 'E') && !exp {
        if i + 1 < chars.len() && (chars[i + 1] == '+' || chars[i + 1] == '-') {
            let (n, f) = number_run(chars, i + 2, dot, true);
            (n + 2, f)
        } else {
            let (n, f) = number_run(chars, i + 1, dot, true);
            (n + 1, f)
        }
    } else {
        (0nat, dot || exp)
    }
}

/// The kind of a word that has the shape of an identifier.
pub open spec fn word_kind(word: Seq<char>) -> TokenType {
    if word == "true"@ || word == "false"@ {
        TokenType::Boolean
    } else if word == "null"@ {
        TokenType::Null
    } else if word == "enum"@ {
        TokenType::Enum
    } else {
        TokenType::Identifier
    }
}

/// The kind of a token that is one fixed character, if `c` is one.
pub open spec fn punctuation_kind(c: char) -> Option<TokenType> {
    if c == '{' {
        Some(TokenType::LeftBrace)
    } else if c == '}' {
        Some(TokenType::RightBrace)
    } else if c == '[' {
        Some(TokenType::LeftBracket)
    } else if c == ']' {
        Some(TokenType::RightBracket)
    } else if c == '(' {
        Some(TokenType::LeftParen)
    } else if c == ')' {
        Some(TokenType::RightParen)
    } else if c == '=' {
        Some(TokenType::Equals)
    } else if c == ';' {
        Some(TokenType::Semicolon)
    } else if c == ',' {
        Some(TokenType::Comma)
    } else if c == '.' {
        Some(TokenType::Dot)
    } else if c == '+' {
        Some(TokenType::Plus)
    } else if c == '-' {
        Some(TokenType::Minus)
    } else if c == '*' {
        Some(TokenType::Multiply)
    } else {
        None
    }
}

/// What stands at one index of the source.
pub enum Scan {
    /// A token that takes one character and `more` after it.
    Token { kind: TokenType, lexeme: Seq<char>, more: nat },
    /// A line comment that takes one character and `more` after it.
    Comment { more: nat },
    /// Nothing that the language knows.
    Error { message: Seq<char> },
}

/// What stands at index `j`, which holds a character that is no whitespace.
pub open spec fn scan_at(chars: Seq<char>, j: int) -> Scan
    recommends
        0 <= j < chars.len(),
{
    let c = chars[j];
    if punctuation_kind(c) is Some {
        Scan::Token { kind: punctuation_kind(c)->0, lexeme: seq![c], more: 0 }
    } else if c == '/' {
        if j + 1 < chars.len() && chars[j + 1] == '/' {
            Scan::Comment { more: 1 + line_run(chars, j + 2) }
        } else {
            Scan::Token { kind: TokenType::Divide, lexeme: seq![c], more: 0 }
        }
    } else if c == ':' {
        if j + 1 < chars.len() && chars[j + 1] == ':' {
            Scan::Token { kind: TokenType::Namespace, lexeme: "::"@, more: 1 }
        } else {
            Scan::Token { kind: TokenType::Colon, lexeme: seq![c], more: 0 }
        }
    } else if c == '"' {
        match string_body(chars, j + 1) {
            Some((text, n)) => Scan::Token { kind: TokenType::String, lexeme: text, more: n },
            None => Scan::Error { message: "Unterminated string"@ },
        }
    } else if c == '$' {
        if j + 1 < chars.len() && chars[j + 1] == '{' {
            match brace_body(chars, j + 2, 1) {
                Some(n) => Scan::Token {
                    kind: TokenType::EnvVar,
                    lexeme: chars.subrange(j, j + 2 + n),
                    more: n + 1,
                },
                None => Scan::Error { message: "Unterminated environment variable"@ },
            }
        } else {
            Scan::Error { message: "Unexpected character '$'"@ }
        }
    } else if c == '@' {
        let n = ident_run(chars, j + 1);
        let word = chars.subrange(j, j + 1 + n);
        if word == "@include"@ {
            Scan::Token { kind: TokenType::Include, lexeme: word, more: n }
        } else if word == "@import"@ {
            Scan::Token { kind: TokenType::Import, lexeme: word, more: n }
        } else {
            Scan::Error { message: "Unknown directive '"@ + word + "'"@ }
        }
    } else if is_digit(c) {
        let (n, is_double) = number_run(chars, j + 1, false, false);
        Scan::Token {
            kind: if is_double {
                TokenType::Double
            } else {
                TokenType::Integer
            },
            lexeme: chars.subrange(j, j + 1 + n),
            more: n,
        }
    } else if is_ident_start(c) {
        let n = ident_run(chars, j + 1);
        let word = chars.subrange(j, j + 1 + n);
        Scan::Token { kind: word_kind(word), lexeme: word, more: n }
    } else {
        Scan::Error { message: "Unexpected character '"@ + seq![c] + "'"@ }
    }
}

/// The token of kind `kind` and text `lexeme` that starts at index `j`.
pub open spec fn token_at(chars: Seq<char>, j: int, kind: TokenType, lexeme: Seq<char>) -> TokenModel {
    let place = place_at(chars, j);
    TokenModel { kind, lexeme, line: place.line, column: place.column, position: place.offset }
}

/// `r` with `tokens` put in front of it.
pub open spec fn after_tokens(tokens: Seq<TokenModel>, r: Result<Seq<TokenModel>, ErrorModel>) -> Result<
    Seq<TokenModel>,
    ErrorModel,
> {
    match r {
        Ok(rest) => Ok(tokens + rest),
        Err(e) => Err(e),
    }
}

/// The tokens of `chars[i..]`: whitespace and comments are skipped, the first
/// thing that is no token ends the scan with a syntax error at its place, and
/// the end of the input gives the closing `Eof` token.
pub open spec fn scan_from(chars: Seq<char>, i: int) -> Result<Seq<TokenModel>, ErrorModel>
    decreases
        (if i <= chars.len() {
            chars.len() - i
        } else {
            0
        }),
{
    let j = skip_whitespace(chars, i);
    if i < 0 || j < i || j >= chars.len() {
        Ok(seq![token_at(chars, chars.len() as int, TokenType::Eof, Seq::empty())])
    } else {
        match scan_at(chars, j) {
            Scan::Token { kind, lexeme, more } => after_tokens(
                seq![token_at(chars, j, kind, lexeme)],
                scan_from(chars, j + 1 + more),
            ),
            Scan::Comment { more } => scan_from(chars, j + 1 + more),
            Scan::Error { message } => Err(
                ErrorModel::SyntaxError {
                    message,
                    line: place_at(chars, j).line,
                    column: place_at(chars, j).column,
                },
            ),
        }
    }
}

/// The tokens of a source text, or the first error. A text of more than
/// [`MAX_INPUT_CHARS`] characters is refused.
pub open spec fn lex(chars: Seq<char>) -> Result<Seq<TokenModel>, ErrorModel> {
    if chars.len() > MAX_INPUT_CHARS {
        Err(ErrorModel::MemoryError { message: "Input too large"@ })
    } else {
        scan_from(chars, 0)
    }
}

/// The model of a scanner's result.
pub open spec fn lexed(r: CfgppResult<Vec<Token>>) -> Result<Seq<TokenModel>, ErrorModel> {
    match r {
        Ok(tokens) => Ok(tokens_view(tokens@)),
        Err(e) => Err(e@),
    }
}

/// Where the scanner stands.
#[derive(Clone, Copy)]
struct Cursor {
    index: usize,
    line: usize,
    column: usize,
    offset: usize,
}

impl Cursor {
    /// The cursor stands at its index in `chars`, with the place of that index.
    spec fn stands_in(self, chars: Seq<char>) -> bool {
        &&& self.index <= chars.len()
        &&& self.line == place_at(chars, self.index as int).line
        &&& self.column == place_at(chars, self.index as int).column
        &&& self.offset == place_at(chars, self.index as int).offset
    }
}

/// What the scanner found at one index.
enum Scanned {
    Token { kind: TokenType, lexeme: String, more: usize },
    Comment { more: usize },
    Error { message: String },
}

impl View for Scanned {
    type V = Scan;

    closed spec fn view(&self) -> Scan {
        match *self {
            Scanned::Token { kind, lexeme, more } => Scan::Token {
                kind,
                lexeme: lexeme@,
                more: more as nat,
            },
            Scanned::Comment { more } => Scan::Comment { more: more as nat },
            Scanned::Error { message } => Scan::Error { message: message@ },
        }
    }
}

/// `r` after `taken` more characters and with `text` in front.
spec fn string_after(text: Seq<char>, taken: int, r: Option<(Seq<char>, nat)>) -> Option<
    (Seq<char>, nat),
> {
    match r {
        None => None,
        Some((rest, n)) => Some((text + rest, (n + taken) as nat)),
    }
}

/// `r` after `taken` more characters.
spec fn count_after(taken: int, r: Option<nat>) -> Option<nat> {
    match r {
        None => None,
        Some(n) => Some((n + taken) as nat),
    }
}

/// A scanner over one source text.
pub struct Lexer {
    chars: Vec<char>,
    cursor: Cursor,
}

impl Lexer {
    #[verifier::type_invariant]
    spec fn well_formed(self) -> bool {
        self.cursor.stands_in(self.chars@)
    }

    /// The whole source text.
    pub closed spec fn input(self) -> Seq<char> {
        self.chars@
    }

    /// Number of characters that the scanner has passed.
    pub closed spec fn consumed(self) -> nat {
        self.cursor.index as nat
    }

    /// A scanner at the start of `input`.
    pub fn new(input: &str) -> (lexer: Self)
        ensures
            lexer.input() == input@,
            lexer.consumed() == 0,
    {
        Lexer { chars: chars_of(input), cursor: Cursor { index: 0, line: 1, column: 1, offset: 0 } }
    }

    /// Moves a cursor on to index `to`.
    fn advance(chars: &Vec<char>, from: Cursor, to: usize) -> (cur: Cursor)
        requires
            from.stands_in(chars@),
            from.index <= to <= chars@.len() <= MAX_INPUT_CHARS,
        ensures
            cur.stands_in(chars@),
            cur.index == to,
    {
        let mut cur = from;
        while cur.index < to
            invariant
                cur.stands_in(chars@),
                cur.index <= to <= chars@.len() <= MAX_INPUT_CHARS,
            decreases to - cur.index,
        {
            proof {
                lemma_place_bounds(chars@, cur.index as int);
            }
            let c = chars[cur.index];
            let width = char_utf8_width(c);
            if c == '\n' {
                cur = Cursor {
                    index: cur.index + 1,
                    line: cur.line + 1,
                    column: 1,
                    offset: cur.offset + width,
                };
            } else {
                cur = Cursor {
                    index: cur.index + 1,
                    line: cur.line,
                    column: cur.column + 1,
                    offset: cur.offset + width,
                };
            }
        }
        cur
    }

    /// The first index at or after `from` that holds no whitespace.
    fn skip_whitespace(chars: &Vec<char>, from: usize) -> (r: usize)
        requires
            from <= chars@.len(),
        ensures
            r == skip_whitespace(chars@, from as int),
            from <= r <= chars@.len(),
    {
        let mut i = from;
        while i < chars.len() && char_is_whitespace(chars[i])
            invariant
                from <= i <= chars@.len(),
                skip_whitespace(chars@, from as int) == skip_whitespace(chars@, i as int),
            decreases chars@.len() - i,
        {
            i = i + 1;
        }
        i
    }

    /// Number of identifier characters from `start` on.
    fn read_identifier(chars: &Vec<char>, start: usize) -> (n: usize)
        requires
            chars@.len() <= MAX_INPUT_CHARS,
            start <= chars@.len(),
        ensures
            n == ident_run(chars@, start as int),
            start + n <= chars@.len(),
    {
        let mut i = start;
        while i < chars.len() && char_is_ident_part(chars[i])
            invariant
                start <= i <= chars@.len(),
                ident_run(chars@, start as int) == ident_run(chars@, i as int) + (i - start),
            decreases chars@.len() - i,
        {
            i = i + 1;
        }
        i - start
    }

    /// Number of characters from `start` up to the end of the line.
    fn read_line_comment(chars: &Vec<char>, start: usize) -> (n: usize)
        requires
            chars@.len() <= MAX_INPUT_CHARS,
            start <= chars@.len(),
        ensures
            n == line_run(chars@, start as int),
            start + n <= chars@.len(),
    {
        let mut i = start;
        while i < chars.len() && chars[i] != '\n'
            invariant
                start <= i <= chars@.len(),
                line_run(chars@, start as int) == line_run(chars@, i as int) + (i - start),
            decreases chars@.len() - i,
        {
            i = i + 1;
        }
        i - start
    }

    /// The string literal whose text starts at `start`, behind the opening
    /// quote.
    fn read_string(chars: &Vec<char>, start: usize) -> (r: Option<(String, usize)>)
        requires
            chars@.len() <= MAX_INPUT_CHARS,
            start <= chars@.len(),
        ensures
            match r {
                Some((text, n)) => string_body(chars@, start as int) == Some((text@, n as nat))
                    && 1 <= n && start + n <= chars@.len(),
                None => string_body(chars@, start as int) is None,
            },
    {
        let mut text = String::new();
        let mut i = start;
        while i < chars.len()
            invariant
                start <= i <= chars@.len(),
                string_body(chars@, start as int) == string_after(
                    text@,
                    i - start,
                    string_body(chars@, i as int),
                ),
            decreases chars@.len() - i,
        {
            let c = chars[i];
            let ghost before = text@;
            if c == '"' {
                assert(before + Seq::<char>::empty() == before);
                return Some((text, i - start + 1));
            } else if c == '\\' {
                if i + 1 >= chars.len() {
                    return None;
                }
                let e = chars[i + 1];
                if e == 'n' {
                    text.push('\n');
                } else if e == 'r' {
                    text.push('\r');
                } else if e == 't' {
                    text.push('\t');
                } else if e == '\\' {
                    text.push('\\');
                } else if e == '"' {
                    text.push('"');
                } else {
                    text.push('\\');
                    text.push(e);
                }
                assert(text@ == before + unescape(e));
                assert forall|rest: Seq<char>| before + (unescape(e) + rest) == text@ + rest by {
                    assert(before + (unescape(e) + rest) =~= (before + unescape(e)) + rest);
                }
                i = i + 2;
            } else {
                text.push(c);
                assert forall|rest: Seq<char>| before + (seq![c] + rest) == text@ + rest by {
                    assert(before + (seq![c] + rest) =~= before.push(c) + rest);
                }
                i = i + 1;
            }
        }
        None
    }

    /// Number of characters from `start`, behind `${`, up to and including the
    /// closing brace.
    fn read_env_var(chars: &Vec<char>, start: usize) -> (r: Option<usize>)
        requires
            chars@.len() <= MAX_INPUT_CHARS,
            start <= chars@.len(),
        ensures
            match r {
                Some(n) => brace_body(chars@, start as int, 1) == Some(n as nat) && 1 <= n
                    && start + n <= chars@.len(),
                None => brace_body(chars@, start as int, 1) is None,
            },
    {
        let mut depth: usize = 1;
        let mut i = start;
        while i < chars.len()
            invariant
                start <= i <= chars@.len() <= MAX_INPUT_CHARS,
                1 <= depth <= i - start + 1,
                brace_body(chars@, start as int, 1) == count_after(
                    i - start,
                    brace_body(chars@, i as int, depth as nat),
                ),
            decreases chars@.len() - i,
        {
            let c = chars[i];
            if c == '}' {
                if depth <= 1 {
                    return Some(i - start + 1);
                }
                depth = depth - 1;
            } else if c == '{' {
                depth = depth + 1;
            }
            i = i + 1;
        }
        None
    }

    /// Number of characters of a number from `start` on, behind its first
    /// digit, and whether it is a double.
    fn read_number(chars: &Vec<char>, start: usize) -> (r: (usize, bool))
        requires
            chars@.len() <= MAX_INPUT_CHARS,
            start <= chars@.len(),
        ensures
            (r.0 as nat, r.1) == number_run(chars@, start as int, false, false),
            start + r.0 <= chars@.len(),
    {
        let mut dot = false;
        let mut exp = false;
        let mut i = start;
        while i < chars.len()
            invariant
                start <= i <= chars@.len(),
                number_run(chars@, start as int, false, false) == (
                    (number_run(chars@, i as int, dot, exp).0 + (i - start)) as nat,
                    number_run(chars@, i as int, dot, exp).1,
                ),
            decreases chars@.len() - i,
        {
            let c = chars[i];
            if char_is_digit(c) {
                i = i + 1;
            } else if c == '.' && !dot && !exp {
                dot = true;
                i = i + 1;
            } else if (c == 'e' || c == 'E') && !exp {
                exp = true;
                if i + 1 < chars.len() && (chars[i + 1] == '+' || chars[i + 1] == '-') {
                    i = i + 2;
                } else {
                    i = i + 1;
                }
            } else {
                return (i - start, dot || exp);
            }
        }
        (i - start, dot || exp)
    }

    /// The directive that starts with the `@` at index `j`.
    fn read_directive(chars: &Vec<char>, j: usize) -> (r: Scanned)
        requires
            chars@.len() <= MAX_INPUT_CHARS,
            j < chars@.len(),
            chars@[j as int] == '@',
        ensures
            r@ == scan_at(chars@, j as int),
            r matches Scanned::Token { more, .. } ==> j + 1 + more <= chars@.len(),
    {
        let n = Self::read_identifier(chars, j + 1);
        let word = slice_of(chars, j, j + 1 + n);
        if chars_equal(&word, "@include") {
            Scanned::Token {
                kind: TokenType::Include,
                lexeme: string_of(chars, j, j + 1 + n),
                more: n,
            }
        } else if chars_equal(&word, "@import") {
            Scanned::Token {
                kind: TokenType::Import,
                lexeme: string_of(chars, j, j + 1 + n),
                more: n,
            }
        } else {
            let mut message = String::new();
            push_text(&mut message, "Unknown directive '");
            push_chars(&mut message, chars, j, j + 1 + n);
            push_text(&mut message, "'");
            Scanned::Error { message }
        }
    }

    /// What stands at index `j`.
    fn next_token(chars: &Vec<char>, j: usize) -> (r: Scanned)
        requires
            chars@.len() <= MAX_INPUT_CHARS,
            j < chars@.len(),
        ensures
            r@ == scan_at(chars@, j as int),
            r matches Scanned::Token { more, .. } ==> j + 1 + more <= chars@.len(),
            r matches Scanned::Comment { more } ==> j + 1 + more <= chars@.len(),
    {
        let c = chars[j];
        let simple: Option<TokenType> = if c == '{' {
            Some(TokenType::LeftBrace)
        } else if c == '}' {
            Some(TokenType::RightBrace)
        } else if c == '[' {
            Some(TokenType::LeftBracket)
        } else if c == ']' {
            Some(TokenType::RightBracket)
        } else if c == '(' {
            Some(TokenType::LeftParen)
        } else if c == ')' {
            Some(TokenType::RightParen)
        } else if c == '=' {
            Some(TokenType::Equals)
        } else if c == ';' {
            Some(TokenType::Semicolon)
        } else if c == ',' {
            Some(TokenType::Comma)
        } else if c == '.' {
            Some(TokenType::Dot)
        } else if c == '+' {
            Some(TokenType::Plus)
        } else if c == '-' {
            Some(TokenType::Minus)
        } else if c == '*' {
            Some(TokenType::Multiply)
        } else {
            None
        };
        assert(simple == punctuation_kind(c));
        assert(chars@.subrange(j as int, j + 1) == seq![c]);
        if let Some(kind) = simple {
            return Scanned::Token { kind, lexeme: string_of(chars, j, j + 1), more: 0 };
        }
        if c == '/' {
            if j + 1 < chars.len() && chars[j + 1] == '/' {
                let n = Self::read_line_comment(chars, j + 2);
                Scanned::Comment { more: n + 1 }
            } else {
                Scanned::Token { kind: TokenType::Divide, lexeme: string_of(chars, j, j + 1), more: 0 }
            }
        } else if c == ':' {
            if j + 1 < chars.len() && chars[j + 1] == ':' {
                Scanned::Token { kind: TokenType::Namespace, lexeme: "::".to_owned(), more: 1 }
            } else {
                Scanned::Token { kind: TokenType::Colon, lexeme: string_of(chars, j, j + 1), more: 0 }
            }
        } else if c == '"' {
            match Self::read_string(chars, j + 1) {
                Some((text, n)) => Scanned::Token { kind: TokenType::String, lexeme: text, more: n },
                None => Scanned::Error { message: "Unterminated string".to_owned() },
            }
        } else if c == '$' {
            if j + 1 < chars.len() && chars[j + 1] == '{' {
                match Self::read_env_var(chars, j + 2) {
                    Some(n) => Scanned::Token {
                        kind: TokenType::EnvVar,
                        lexeme: string_of(chars, j, j + 2 + n),
                        more: n + 1,
                    },
                    None => Scanned::Error {
                        message: "Unterminated environment variable".to_owned(),
                    },
                }
            } else {
                Scanned::Error { message: "Unexpected character '$'".to_owned() }
            }
        } else if c == '@' {
            Self::read_directive(chars, j)
        } else if char_is_digit(c) {
            let (n, is_double) = Self::read_number(chars, j + 1);
            let kind = if is_double {
                TokenType::Double
            } else {
                TokenType::Integer
            };
            Scanned::Token { kind, lexeme: string_of(chars, j, j + 1 + n), more: n }
        } else if char_is_ident_start(c) {
            let n = Self::read_identifier(chars, j + 1);
            let word = slice_of(chars, j, j + 1 + n);
            let kind = if chars_equal(&word, "true") || chars_equal(&word, "false") {
                TokenType::Boolean
            } else if chars_equal(&word, "null") {
                TokenType::Null
            } else if chars_equal(&word, "enum") {
                TokenType::Enum
            } else {
                TokenType::Identifier
            };
            Scanned::Token { kind, lexeme: string_of(chars, j, j + 1 + n), more: n }
        } else {
            let mut message = String::new();
            push_text(&mut message, "Unexpected character '");
            push_chars(&mut message, chars, j, j + 1);
            push_text(&mut message, "'");
            Scanned::Error { message }
        }
    }

    /// Scans the rest of the input: the tokens from where the scanner stands
    /// to the end, closed by `Eof`, or the first error. After an error the
    /// scanner stands where it stood.
    pub fn tokenize(&mut self) -> (r: CfgppResult<Vec<Token>>)
        ensures
            final(self).input() == old(self).input(),
            lexed(r) == (if old(self).input().len() > MAX_INPUT_CHARS {
                Err(ErrorModel::MemoryError { message: "Input too large"@ })
            } else {
                scan_from(old(self).input(), old(self).consumed() as int)
            }),
            r is Ok ==> final(self).consumed() == old(self).input().len(),
            r is Err ==> final(self).consumed() == old(self).consumed(),
            r matches Ok(tokens) ==> tokens@.len() >= 1 && tokens@.last().token_type
                == TokenType::Eof,
    {
        proof {
            use_type_invariant(&*self);
            crate::laws::lemma_scan_shape(self.chars@, self.cursor.index as int);
        }
        let n = self.chars.len();
        if n > MAX_INPUT_CHARS {
            return Err(CfgppError::MemoryError { message: "Input too large".to_owned() });
        }
        let mut tokens: Vec<Token> = Vec::new();
        let mut cur = self.cursor;
        let ghost start = self.cursor.index as int;
        assert(tokens_view(tokens@) =~= Seq::empty());
        loop
            invariant_except_break
                scan_from(self.chars@, start) == after_tokens(
                    tokens_view(tokens@),
                    scan_from(self.chars@, cur.index as int),
                ),
            invariant
                n == self.chars@.len() <= MAX_INPUT_CHARS,
                cur.stands_in(self.chars@),
                *self == *old(self),
                start == old(self).consumed(),
            ensures
                cur.index == n,
                scan_from(self.chars@, start) == Ok::<Seq<TokenModel>, ErrorModel>(
                    tokens_view(tokens@),
                ),
            decreases n - cur.index,
        {
            let ghost at = cur.index as int;
            let j = Self::skip_whitespace(&self.chars, cur.index);
            cur = Self::advance(&self.chars, cur, j);
            proof {
                lemma_place_bounds(self.chars@, j as int);
            }
            let ghost before = tokens_view(tokens@);
            if j >= n {
                tokens.push(Token::new(TokenType::Eof, String::new(), cur.line, cur.column, cur.offset));
                assert(tokens_view(tokens@) =~= before + seq![
                    token_at(self.chars@, n as int, TokenType::Eof, Seq::empty()),
                ]);
                break;
            }
            match Self::next_token(&self.chars, j) {
                Scanned::Token { kind, lexeme, more } => {
                    tokens.push(Token::new(kind, lexeme, cur.line, cur.column, cur.offset));
                    assert(tokens_view(tokens@) =~= before + seq![
                        token_at(self.chars@, j as int, kind, lexeme@),
                    ]);
                    assert forall|rest: Seq<TokenModel>|
                        before + (seq![token_at(self.chars@, j as int, kind, lexeme@)] + rest)
                            == tokens_view(tokens@) + rest by {
                        assert(before + (seq![token_at(self.chars@, j as int, kind, lexeme@)]
                            + rest) =~= tokens_view(tokens@) + rest);
                    }
                    cur = Self::advance(&self.chars, cur, j + 1 + more);
                },
                Scanned::Comment { more } => {
                    cur = Self::advance(&self.chars, cur, j + 1 + more);
                },
                Scanned::Error { message } => {
                    assert(scan_from(self.chars@, at) == Err::<Seq<TokenModel>, ErrorModel>(
                        ErrorModel::SyntaxError {
                            message: message@,
                            line: cur.line as nat,
                            column: cur.column as nat,
                        },
                    ));
                    let failure = CfgppError::SyntaxError {
                        message,
                        line: cur.line,
                        column: cur.column,
                    };
                    return Err(failure);
                },
            }
        }
        self.cursor = cur;
        Ok(tokens)
    }
}

/// The tokens of `input`, closed by `Eof`, or the first error.
pub fn tokenize_text(input: &str) -> (r: CfgppResult<Vec<Token>>)
    ensures
        lexed(r) == lex(input@),
        r matches Ok(tokens) ==> tokens@.len() >= 1 && tokens@.last().token_type == TokenType::Eof,
{
    let mut lexer = Lexer::new(input);
    lexer.tokenize()
}

} // verus!
