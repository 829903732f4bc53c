//! The scanner: characters to tokens, with lines and columns counted from 1.
//!
//! The model of the scanner is a sequence of characters and a [`Cursor`] in
//! it. The spec function [`next_token`] says which token starts at a cursor
//! and where the cursor stands afterwards.

use vstd::prelude::*;
use vstd::string::*;
use crate::error::{
    CompilerError, ErrorKind, Result, SourceLocation, SpecError, SpecErrorKind, SpecLocation,
};
use crate::text::{
    chars_of, decimal_int, is_space, lines_of, push_chars, push_decimal_int, split_lines, texts,
};

verus! {

/// The kind of a token, with its payload.
#[derive(Debug, Clone, PartialEq)]
pub enum TokenType {
    Number(i64),
    Identifier(String),
    Plus,
    Minus,
    Multiply,
    Divide,
    Assign,
    Semicolon,
    LParen,
    RParen,
    LBrace,
    RBrace,
    If,
    Else,
    While,
    Equals,
    NotEquals,
    Less,
    Greater,
    Function,
    Return,
    Comma,
    StringLiteral(String),
    LessEqual,
    GreaterEqual,
    And,
    Or,
    Include,
    From,
    Asm,
    Colon,
    LeftBracket,
    RightBracket,
    EOF,
}

/// The kind of a token, as mathematics.
pub enum Tok {
    Number(i64),
    Identifier(Seq<char>),
    Plus,
    Minus,
    Multiply,
    Divide,
    Assign,
    Semicolon,
    LParen,
    RParen,
    LBrace,
    RBrace,
    If,
    Else,
    While,
    Equals,
    NotEquals,
    Less,
    Greater,
    Function,
    Return,
    Comma,
    StringLiteral(Seq<char>),
    LessEqual,
    GreaterEqual,
    And,
    Or,
    Include,
    From,
    Asm,
    Colon,
    LeftBracket,
    RightBracket,
    EOF,
}

impl View for TokenType {
    type V = Tok;

    open spec fn view(&self) -> Tok {
        match self {
            TokenType::Number(n) => Tok::Number(*n),
            TokenType::Identifier(name) => Tok::Identifier(name@),
            TokenType::Plus => Tok::Plus,
            TokenType::Minus => Tok::Minus,
            TokenType::Multiply => Tok::Multiply,
            TokenType::Divide => Tok::Divide,
            TokenType::Assign => Tok::Assign,
            TokenType::Semicolon => Tok::Semicolon,
            TokenType::LParen => Tok::LParen,
            TokenType::RParen => Tok::RParen,
            TokenType::LBrace => Tok::LBrace,
            TokenType::RBrace => Tok::RBrace,
            TokenType::If => Tok::If,
            TokenType::Else => Tok::Else,
            TokenType::While => Tok::While,
            TokenType::Equals => Tok::Equals,
            TokenType::NotEquals => Tok::NotEquals,
            TokenType::Less => Tok::Less,
            TokenType::Greater => Tok::Greater,
            TokenType::Function => Tok::Function,
            TokenType::Return => Tok::Return,
            TokenType::Comma => Tok::Comma,
            TokenType::StringLiteral(text) => Tok::StringLiteral(text@),
            TokenType::LessEqual => Tok::LessEqual,
            TokenType::GreaterEqual => Tok::GreaterEqual,
            TokenType::And => Tok::And,
            TokenType::Or => Tok::Or,
            TokenType::Include => Tok::Include,
            TokenType::From => Tok::From,
            TokenType::Asm => Tok::Asm,
            TokenType::Colon => Tok::Colon,
            TokenType::LeftBracket => Tok::LeftBracket,
            TokenType::RightBracket => Tok::RightBracket,
            TokenType::EOF => Tok::EOF,
        }
    }
}

/// How a token is named in a message.
pub open spec fn describe(t: Tok) -> Seq<char> {
    match t {
        Tok::Number(n) => "number "@ + decimal_int(n as int),
        Tok::Identifier(name) => "identifier "@ + name,
        Tok::Plus => "+"@,
        Tok::Minus => "-"@,
        Tok::Multiply => "*"@,
        Tok::Divide => "/"@,
        Tok::Assign => "="@,
        Tok::Semicolon => ";"@,
        Tok::LParen => "("@,
        Tok::RParen => ")"@,
        Tok::LBrace => "{"@,
        Tok::RBrace => "}"@,
        Tok::If => "if"@,
        Tok::Else => "else"@,
        Tok::While => "while"@,
        Tok::Equals => "=="@,
        Tok::NotEquals => "!="@,
        Tok::Less => "<"@,
        Tok::Greater => ">"@,
        Tok::Function => "fn"@,
        Tok::Return => "return"@,
        Tok::Comma => ","@,
        Tok::StringLiteral(text) => "string \""@ + text + "\""@,
        Tok::LessEqual => "<="@,
        Tok::GreaterEqual => ">="@,
        Tok::And => "&&"@,
        Tok::Or => "||"@,
        Tok::Include => "@include"@,
        Tok::From => "from"@,
        Tok::Asm => "asm"@,
        Tok::Colon => ":"@,
        Tok::LeftBracket => "["@,
        Tok::RightBracket => "]"@,
        Tok::EOF => "end of file"@,
    }
}

impl TokenType {
    /// How the token is named in a message.
    pub fn describe(&self) -> (out: String)
        ensures
            out@ == describe(self@),
    {
        match self {
            TokenType::Number(n) => {
                let mut out = String::from_str("number ");
                push_decimal_int(&mut out, *n);
                out
            },
            TokenType::Identifier(name) => {
                let mut out = String::from_str("identifier ");
                out.append(name.as_str());
                out
            },
            TokenType::Plus => String::from_str("+"),
            TokenType::Minus => String::from_str("-"),
            TokenType::Multiply => String::from_str("*"),
            TokenType::Divide => String::from_str("/"),
            TokenType::Assign => String::from_str("="),
            TokenType::Semicolon => String::from_str(";"),
            TokenType::LParen => String::from_str("("),
            TokenType::RParen => String::from_str(")"),
            TokenType::LBrace => String::from_str("{"),
            TokenType::RBrace => String::from_str("}"),
            TokenType::If => String::from_str("if"),
            TokenType::Else => String::from_str("else"),
            TokenType::While => String::from_str("while"),
            TokenType::Equals => String::from_str("=="),
            TokenType::NotEquals => String::from_str("!="),
            TokenType::Less => String::from_str("<"),
            TokenType::Greater => String::from_str(">"),
            TokenType::Function => String::from_str("fn"),
            TokenType::Return => String::from_str("return"),
            TokenType::Comma => String::from_str(","),
            TokenType::StringLiteral(text) => {
                let mut out = String::from_str("string \"");
                out.append(text.as_str());
                out.append("\"");
                out
            },
            TokenType::LessEqual => String::from_str("<="),
            TokenType::GreaterEqual => String::from_str(">="),
            TokenType::And => String::from_str("&&"),
            TokenType::Or => String::from_str("||"),
            TokenType::Include => String::from_str("@include"),
            TokenType::From => String::from_str("from"),
            TokenType::Asm => String::from_str("asm"),
            TokenType::Colon => String::from_str(":"),
            TokenType::LeftBracket => String::from_str("["),
            TokenType::RightBracket => String::from_str("]"),
            TokenType::EOF => String::from_str("end of file"),
        }
    }
}

/// A token: its kind, and the line and the column at which it starts.
#[derive(Debug, Clone)]
pub struct Token {
    pub token_type: TokenType,
    pub line: usize,
    pub column: usize,
}

/// A token, as mathematics.
pub struct SpecToken {
    pub kind: Tok,
    pub line: nat,
    pub column: nat,
}

impl View for Token {
    type V = SpecToken;

    open spec fn view(&self) -> SpecToken {
        SpecToken { kind: self.token_type@, line: self.line as nat, column: self.column as nat }
    }
}

/// A position in the input: the index of the next character, and its line
/// and column.
pub struct Cursor {
    pub pos: nat,
    pub line: nat,
    pub column: nat,
}

/// The cursor at the start of an input.
pub open spec fn start() -> Cursor {
    Cursor { pos: 0, line: 1, column: 1 }
}

/// The character under the cursor, if the input has not ended.
pub open spec fn peek(s: Seq<char>, c: Cursor) -> Option<char> {
    if c.pos < s.len() {
        Some(s[c.pos as int])
    } else {
        None
    }
}

/// The cursor after the character under it: a line feed starts a new line,
/// any other character moves one column on. At the end the cursor stays.
pub open spec fn advance(s: Seq<char>, c: Cursor) -> Cursor {
    if c.pos >= s.len() {
        c
    } else if s[c.pos as int] == '\n' {
        Cursor { pos: c.pos + 1, line: c.line + 1, column: 1 }
    } else {
        Cursor { pos: c.pos + 1, line: c.line, column: c.column + 1 }
    }
}

/// The cursor after the whitespace that starts at it.
pub open spec fn skip_spaces(s: Seq<char>, c: Cursor) -> Cursor
    decreases s.len() - c.pos,
{
    if c.pos < s.len() && is_space(s[c.pos as int]) {
        skip_spaces(s, advance(s, c))
    } else {
        c
    }
}

/// The cursor at the next line feed, or at the end of the input.
pub open spec fn skip_line(s: Seq<char>, c: Cursor) -> Cursor
    decreases s.len() - c.pos,
{
    if c.pos < s.len() && s[c.pos as int] != '\n' {
        skip_line(s, advance(s, c))
    } else {
        c
    }
}

/// The cursor after the `*/` that closes a block comment, or at the end of
/// the input where none closes it. Block comments do not nest.
pub open spec fn skip_block(s: Seq<char>, c: Cursor) -> Cursor
    decreases s.len() - c.pos,
{
    if c.pos >= s.len() {
        c
    } else if s[c.pos as int] == '*' {
        let c1 = advance(s, c);
        if c1.pos < s.len() && s[c1.pos as int] == '/' {
            advance(s, c1)
        } else {
            skip_block(s, c1)
        }
    } else {
        skip_block(s, advance(s, c))
    }
}

/// None of the skipping functions moves the cursor back or past the end.
pub proof fn lemma_skips_forward(s: Seq<char>, c: Cursor)
    requires
        c.pos <= s.len(),
    ensures
        c.pos <= skip_spaces(s, c).pos <= s.len(),
        c.pos <= skip_line(s, c).pos <= s.len(),
        c.pos <= skip_block(s, c).pos <= s.len(),
    decreases s.len() - c.pos,
{
    if c.pos < s.len() {
        lemma_skips_forward(s, advance(s, c));
    }
}

/// The cursor after the whitespace and the comments that start at it. A `/`
/// that opens no comment is left where it is.
pub open spec fn skip_blank(s: Seq<char>, c: Cursor) -> Cursor
    decreases s.len() - c.pos,
{
    if c.pos > s.len() {
        c
    } else {
        let c1 = skip_spaces(s, c);
        if c1.pos + 1 < s.len() && s[c1.pos as int] == '/' && s[c1.pos as int + 1] == '/' {
            proof {
                lemma_skips_forward(s, c);
                lemma_skips_forward(s, advance(s, advance(s, c1)));
            }
            skip_blank(s, skip_line(s, advance(s, advance(s, c1))))
        } else if c1.pos + 1 < s.len() && s[c1.pos as int] == '/' && s[c1.pos as int + 1] == '*' {
            proof {
                lemma_skips_forward(s, c);
                lemma_skips_forward(s, advance(s, advance(s, c1)));
            }
            skip_blank(s, skip_block(s, advance(s, advance(s, c1))))
        } else {
            c1
        }
    }
}

/// A decimal digit.
pub open spec fn is_digit(c: char) -> bool {
    '0' <= c && c <= '9'
}

/// A character that may start an identifier: an ASCII letter or `_`.
pub open spec fn is_letter(c: char) -> bool {
    ('a' <= c && c <= 'z') || ('A' <= c && c <= 'Z') || c == '_'
}

/// A character that may continue an identifier.
pub open spec fn is_word(c: char) -> bool {
    is_letter(c) || is_digit(c)
}

/// The cursor after the identifier characters that start at it.
pub open spec fn skip_word(s: Seq<char>, c: Cursor) -> Cursor
    decreases s.len() - c.pos,
{
    if c.pos < s.len() && is_word(s[c.pos as int]) {
        skip_word(s, advance(s, c))
    } else {
        c
    }
}

/// The cursor after the digits that start at it.
pub open spec fn skip_digits(s: Seq<char>, c: Cursor) -> Cursor
    decreases s.len() - c.pos,
{
    if c.pos < s.len() && is_digit(s[c.pos as int]) {
        skip_digits(s, advance(s, c))
    } else {
        c
    }
}

/// The characters from one cursor up to another.
pub open spec fn between(s: Seq<char>, from: Cursor, to: Cursor) -> Seq<char> {
    s.subrange(from.pos as int, to.pos as int)
}

/// The number that a sequence of digits writes.
pub open spec fn decimal_value(digits: Seq<char>) -> nat
    decreases digits.len(),
{
    if digits.len() == 0 {
        0
    } else {
        10 * decimal_value(digits.drop_last()) + (digits.last() as nat - 48) as nat
    }
}

/// The token of a word: one of the seven keywords, or an identifier.
pub open spec fn keyword(word: Seq<char>) -> Tok {
    if word == "if"@ {
        Tok::If
    } else if word == "else"@ {
        Tok::Else
    } else if word == "while"@ {
        Tok::While
    } else if word == "fn"@ {
        Tok::Function
    } else if word == "return"@ {
        Tok::Return
    } else if word == "from"@ {
        Tok::From
    } else if word == "asm"@ {
        Tok::Asm
    } else {
        Tok::Identifier(word)
    }
}

/// The character that an escape sequence stands for, by the character after
/// the backslash.
pub open spec fn escape(c: char) -> Option<char> {
    if c == 'n' {
        Some('\n')
    } else if c == 't' {
        Some('\t')
    } else if c == 'r' {
        Some('\r')
    } else if c == '\\' {
        Some('\\')
    } else if c == '"' {
        Some('"')
    } else if c == '0' {
        Some('\0')
    } else if c == 'b' {
        Some('\x08')
    } else if c == 'f' {
        Some('\x0C')
    } else if c == 'v' {
        Some('\x0B')
    } else if c == '\'' {
        Some('\'')
    } else {
        None
    }
}

/// What scanning ends in: a value or the message of a syntax error, and the
/// cursor after the value or at the error.
pub type Scanned<T> = (std::result::Result<T, Seq<char>>, Cursor);

/// The rest of a string literal, from a cursor inside it: `text` is what was
/// read since the opening quote.
pub open spec fn scan_string(s: Seq<char>, c: Cursor, text: Seq<char>) -> Scanned<Seq<char>>
    decreases s.len() - c.pos,
{
    if c.pos >= s.len() {
        (Err("unterminated string literal"@), c)
    } else if s[c.pos as int] == '"' {
        (Ok(text), advance(s, c))
    } else if s[c.pos as int] == '\\' {
        let c1 = advance(s, c);
        if c1.pos >= s.len() {
            (Err("incomplete escape sequence"@), c1)
        } else {
            match escape(s[c1.pos as int]) {
                Some(ch) => scan_string(s, advance(s, c1), text.push(ch)),
                None => (
                    Err("invalid escape sequence: \\"@.push(s[c1.pos as int])),
                    advance(s, c1),
                ),
            }
        }
    } else {
        scan_string(s, advance(s, c), text.push(s[c.pos as int]))
    }
}

/// A token that starts at `from` and ends before `to`.
pub open spec fn token(kind: Tok, from: Cursor, to: Cursor) -> Scanned<SpecToken> {
    (Ok(SpecToken { kind, line: from.line, column: from.column }), to)
}

/// The token of a character that is a token by itself.
pub open spec fn simple(c: char) -> Option<Tok> {
    if c == '+' {
        Some(Tok::Plus)
    } else if c == '-' {
        Some(Tok::Minus)
    } else if c == '*' {
        Some(Tok::Multiply)
    } else if c == '/' {
        Some(Tok::Divide)
    } else if c == ';' {
        Some(Tok::Semicolon)
    } else if c == '(' {
        Some(Tok::LParen)
    } else if c == ')' {
        Some(Tok::RParen)
    } else if c == '{' {
        Some(Tok::LBrace)
    } else if c == '}' {
        Some(Tok::RBrace)
    } else if c == ',' {
        Some(Tok::Comma)
    } else if c == ':' {
        Some(Tok::Colon)
    } else if c == '[' {
        Some(Tok::LeftBracket)
    } else if c == ']' {
        Some(Tok::RightBracket)
    } else {
        None
    }
}

/// The error for a character that starts no token.
pub open spec fn unexpected(s: Seq<char>, c: Cursor) -> Scanned<SpecToken> {
    (Err("unexpected character: "@.push(s[c.pos as int])), c)
}

/// An operator of one or two characters: `both` when `second` follows,
/// `single` otherwise, and an error where the first character alone is no
/// operator. The longer form is tried first.
pub open spec fn paired(
    s: Seq<char>,
    c: Cursor,
    second: char,
    both: Tok,
    single: Option<Tok>,
) -> Scanned<SpecToken> {
    let c1 = advance(s, c);
    if peek(s, c1) == Some(second) {
        token(both, c, advance(s, c1))
    } else {
        match single {
            Some(kind) => token(kind, c, c1),
            None => unexpected(s, c),
        }
    }
}

/// The token that starts at a cursor which stands on a character that is
/// neither whitespace nor the start of a comment.
pub open spec fn scan_token(s: Seq<char>, c: Cursor) -> Scanned<SpecToken> {
    let ch = s[c.pos as int];
    if ch == '@' {
        let to = skip_word(s, advance(s, c));
        let word = between(s, advance(s, c), to);
        if word == "include"@ {
            token(Tok::Include, c, to)
        } else {
            (Err("unknown directive @"@ + word), to)
        }
    } else if is_digit(ch) {
        let to = skip_digits(s, c);
        let digits = between(s, c, to);
        if decimal_value(digits) <= i64::MAX {
            token(Tok::Number(decimal_value(digits) as i64), c, to)
        } else {
            (Err("invalid number: "@ + digits), to)
        }
    } else if is_letter(ch) {
        let to = skip_word(s, c);
        token(keyword(between(s, c, to)), c, to)
    } else if ch == '"' {
        match scan_string(s, advance(s, c), Seq::empty()) {
            (Ok(text), to) => token(Tok::StringLiteral(text), c, to),
            (Err(message), at) => (Err(message), at),
        }
    } else if ch == '=' {
        paired(s, c, '=', Tok::Equals, Some(Tok::Assign))
    } else if ch == '<' {
        paired(s, c, '=', Tok::LessEqual, Some(Tok::Less))
    } else if ch == '>' {
        paired(s, c, '=', Tok::GreaterEqual, Some(Tok::Greater))
    } else if ch == '!' {
        paired(s, c, '=', Tok::NotEquals, None)
    } else if ch == '&' {
        paired(s, c, '&', Tok::And, None)
    } else if ch == '|' {
        paired(s, c, '|', Tok::Or, None)
    } else {
        match simple(ch) {
            Some(kind) => token(kind, c, advance(s, c)),
            None => unexpected(s, c),
        }
    }
}

/// The next token from a cursor: whitespace and comments are passed over,
/// the end of the input gives `EOF` without moving.
#[verifier::opaque]
pub open spec fn next_token(s: Seq<char>, c: Cursor) -> Scanned<SpecToken> {
    let c1 = skip_blank(s, c);
    if c1.pos >= s.len() {
        token(Tok::EOF, c1, c1)
    } else {
        scan_token(s, c1)
    }
}

/// Skipping whitespace and comments never moves the cursor back or past the end.
pub proof fn lemma_skip_blank_forward(s: Seq<char>, c: Cursor)
    ensures
        c.pos <= skip_blank(s, c).pos,
        c.pos <= s.len() ==> skip_blank(s, c).pos <= s.len(),
    decreases s.len() - c.pos,
{
    if c.pos <= s.len() {
        let c1 = skip_spaces(s, c);
        lemma_skips_forward(s, c);
        if c1.pos + 1 < s.len() && s[c1.pos as int] == '/' && (s[c1.pos as int + 1] == '/'
            || s[c1.pos as int + 1] == '*') {
            let c2 = advance(s, advance(s, c1));
            lemma_skips_forward(s, c2);
            if s[c1.pos as int + 1] == '/' {
                lemma_skip_blank_forward(s, skip_line(s, c2));
            } else {
                lemma_skip_blank_forward(s, skip_block(s, c2));
            }
        }
    }
}

/// Reading a word or a number never moves the cursor back or past the end.
pub proof fn lemma_runs_forward(s: Seq<char>, c: Cursor)
    requires
        c.pos <= s.len(),
    ensures
        c.pos <= skip_word(s, c).pos <= s.len(),
        c.pos <= skip_digits(s, c).pos <= s.len(),
    decreases s.len() - c.pos,
{
    if c.pos < s.len() {
        lemma_runs_forward(s, advance(s, c));
    }
}

/// Reading a string never moves the cursor back or past the end.
pub proof fn lemma_string_forward(s: Seq<char>, c: Cursor, text: Seq<char>)
    requires
        c.pos <= s.len(),
    ensures
        c.pos <= scan_string(s, c, text).1.pos <= s.len(),
    decreases s.len() - c.pos,
{
    if c.pos < s.len() && s[c.pos as int] != '"' {
        if s[c.pos as int] == '\\' {
            let c1 = advance(s, c);
            if c1.pos < s.len() {
                match escape(s[c1.pos as int]) {
                    Some(ch) => {
                        lemma_string_forward(s, advance(s, c1), text.push(ch));
                    },
                    None => {},
                }
            }
        } else {
            lemma_string_forward(s, advance(s, c), text.push(s[c.pos as int]));
        }
    }
}

/// Scanning never moves the cursor back or past the end, and every token but
/// `EOF` takes at least one character.
pub proof fn lemma_token_progress(s: Seq<char>, c: Cursor)
    ensures
        c.pos <= next_token(s, c).1.pos,
        c.pos <= s.len() ==> next_token(s, c).1.pos <= s.len(),
        next_token(s, c).0 matches Ok(t) ==> t.kind is EOF || c.pos < next_token(s, c).1.pos,
        c.pos >= s.len() ==> next_token(s, c) == token(Tok::EOF, c, c),
{
    reveal(next_token);
    lemma_skip_blank_forward(s, c);
    let c1 = skip_blank(s, c);
    if c1.pos < s.len() {
        lemma_runs_forward(s, c1);
        lemma_runs_forward(s, advance(s, c1));
        lemma_string_forward(s, advance(s, c1), Seq::empty());
    }
}

/// What a scanner holds, as mathematics.
pub struct LexerState {
    /// The characters of the source.
    pub input: Seq<char>,
    /// Where the scanner stands.
    pub cursor: Cursor,
    /// The name of the source file.
    pub file: Seq<char>,
}

/// The text of a line of the input, or nothing where the input has no such line.
pub open spec fn line_text(input: Seq<char>, line: nat) -> Seq<char> {
    if 1 <= line <= lines_of(input).len() {
        lines_of(input)[line - 1]
    } else {
        Seq::empty()
    }
}

/// A line and a column of the source.
pub struct Place {
    pub line: nat,
    pub column: nat,
}

/// The error of a kind at a place of the scanner's file, with the source
/// line of that place.
pub open spec fn error_in(st: LexerState, place: Place, kind: SpecErrorKind) -> SpecError {
    SpecError {
        kind,
        location: SpecLocation { line: place.line, column: place.column, file: st.file },
        source_line: line_text(st.input, place.line),
    }
}

/// The error of a kind at the place where a scanner stands.
pub open spec fn error_at(st: LexerState, kind: SpecErrorKind) -> SpecError {
    error_in(st, Place { line: st.cursor.line, column: st.cursor.column }, kind)
}

/// Whether an executable result is the scanned one: the same value, or a
/// syntax error with the scanned message at the place where the scanner stands.
pub open spec fn agrees<T: View>(
    r: Result<T>,
    scanned: std::result::Result<T::V, Seq<char>>,
    st: LexerState,
) -> bool {
    match r {
        Ok(value) => scanned == Ok::<T::V, Seq<char>>(value@),
        Err(e) => scanned is Err && e@ == error_at(st, SpecErrorKind::SyntaxError(scanned->Err_0)),
    }
}

/// The scanner of one source file.
pub struct Lexer {
    input: Vec<char>,
    position: usize,
    line: usize,
    column: usize,
    filename: String,
    source_lines: Vec<String>,
}

impl View for Lexer {
    type V = LexerState;

    closed spec fn view(&self) -> LexerState {
        LexerState {
            input: self.input@,
            cursor: Cursor {
                pos: self.position as nat,
                line: self.line as nat,
                column: self.column as nat,
            },
            file: self.filename@,
        }
    }
}

impl Lexer {
    /// The cursor lies within the input, lines and columns count from 1 and
    /// cannot run ahead of the position, and the lines kept for messages are
    /// those of the input.
    #[verifier::type_invariant]
    spec fn inv(self) -> bool {
        &&& self.position <= self.input.len() < usize::MAX
        &&& self.line >= 1
        &&& self.column >= 1
        &&& (self.line - 1) + (self.column - 1) <= self.position
        &&& texts(self.source_lines@) == lines_of(self.input@)
    }

    /// A scanner at the start of `input`.
    pub fn new(input: &str, filename: String) -> (lexer: Self)
        requires
            input@.len() < usize::MAX,
        ensures
            lexer@ == (LexerState { input: input@, cursor: start(), file: filename@ }),
    {
        let chars = chars_of(input);
        let lines = split_lines(&chars);
        let mut source_lines: Vec<String> = Vec::new();
        let mut i: usize = 0;
        while i < lines.len()
            invariant
                i <= lines.len(),
                source_lines@.len() == i,
                forall|k: int| 0 <= k < i ==> (#[trigger] source_lines@[k])@ == lines@[k]@,
            decreases lines.len() - i,
        {
            let mut line = String::new();
            push_chars(&mut line, &lines[i], 0, lines[i].len());
            assert(line@ =~= lines@[i as int]@);
            source_lines.push(line);
            i += 1;
        }
        assert(texts(source_lines@) =~= lines_of(chars@));
        Lexer { input: chars, position: 0, line: 1, column: 1, filename, source_lines }
    }

    /// The character under the cursor.
    fn peek(&self) -> (ch: Option<char>)
        ensures
            ch == peek(self@.input, self@.cursor),
    {
        proof {
            use_type_invariant(self);
        }
        if self.position < self.input.len() {
            Some(self.input[self.position])
        } else {
            None
        }
    }

    /// The character after the one under the cursor.
    fn peek_next(&self) -> (ch: Option<char>)
        ensures
            ch == peek(self@.input, advance(self@.input, self@.cursor)),
    {
        proof {
            use_type_invariant(self);
        }
        if self.position + 1 < self.input.len() {
            Some(self.input[self.position + 1])
        } else {
            None
        }
    }

    /// Moves past the character under the cursor.
    fn advance(&mut self)
        ensures
            final(self)@ == (LexerState {
                cursor: advance(old(self)@.input, old(self)@.cursor),
                ..old(self)@
            }),
    {
        proof {
            use_type_invariant(&*self);
        }
        if self.position < self.input.len() {
            let ch = self.input[self.position];
            self.position += 1;
            if ch == '\n' {
                self.column = 1;
                self.line += 1;
            } else {
                self.column += 1;
            }
        }
    }

    /// The error of a kind at the place where the scanner stands, with the
    /// source line of that place.
    pub fn create_error(&self, kind: ErrorKind) -> (e: CompilerError)
        ensures
            e@ == error_at(self@, kind@),
    {
        self.create_error_at(self.line, self.column, kind)
    }

    /// The error of a kind at a line and a column of the scanner's file,
    /// with the source line of that place, or with no source line where the
    /// file has no such line.
    pub fn create_error_at(&self, line: usize, column: usize, kind: ErrorKind) -> (e:
        CompilerError)
        ensures
            e@ == error_in(self@, Place { line: line as nat, column: column as nat }, kind@),
    {
        proof {
            use_type_invariant(self);
        }
        let source_line = if 1 <= line && line <= self.source_lines.len() {
            self.source_lines[line - 1].clone()
        } else {
            String::new()
        };
        CompilerError::new(
            kind,
            SourceLocation { line, column, file: self.filename.clone() },
            source_line,
        )
    }

    /// A syntax error with the given message at the place where the scanner stands.
    fn syntax_error(&self, message: String) -> (e: CompilerError)
        ensures
            e@ == error_at(self@, SpecErrorKind::SyntaxError(message@)),
    {
        self.create_error(ErrorKind::SyntaxError(message))
    }

    /// Moves past whitespace.
    fn skip_whitespace(&mut self)
        ensures
            final(self)@ == (LexerState {
                cursor: skip_spaces(old(self)@.input, old(self)@.cursor),
                ..old(self)@
            }),
    {
        loop
            invariant
                self@.input == old(self)@.input,
                self@.file == old(self)@.file,
                skip_spaces(self@.input, self@.cursor) == skip_spaces(
                    old(self)@.input,
                    old(self)@.cursor,
                ),
            ensures
                self@ == (LexerState {
                    cursor: skip_spaces(old(self)@.input, old(self)@.cursor),
                    ..old(self)@
                }),
            decreases self@.input.len() - self@.cursor.pos,
        {
            match self.peek() {
                Some(ch) => {
                    if !ch.is_whitespace() {
                        break ;
                    }
                },
                None => {
                    break ;
                },
            }
            self.advance();
        }
    }
}

/// The character that an escape sequence stands for.
fn escape_char(c: char) -> (r: Option<char>)
    ensures
        r == escape(c),
{
    if c == 'n' {
        Some('\n')
    } else if c == 't' {
        Some('\t')
    } else if c == 'r' {
        Some('\r')
    } else if c == '\\' {
        Some('\\')
    } else if c == '"' {
        Some('"')
    } else if c == '0' {
        Some('\0')
    } else if c == 'b' {
        Some('\x08')
    } else if c == 'f' {
        Some('\x0C')
    } else if c == 'v' {
        Some('\x0B')
    } else if c == '\'' {
        Some('\'')
    } else {
        None
    }
}

/// The token of a character that is a token by itself.
fn simple_token(c: char) -> (r: Option<TokenType>)
    ensures
        match r {
            Some(t) => simple(c) == Some(t@),
            None => simple(c) is None,
        },
{
    if c == '+' {
        Some(TokenType::Plus)
    } else if c == '-' {
        Some(TokenType::Minus)
    } else if c == '*' {
        Some(TokenType::Multiply)
    } else if c == '/' {
        Some(TokenType::Divide)
    } else if c == ';' {
        Some(TokenType::Semicolon)
    } else if c == '(' {
        Some(TokenType::LParen)
    } else if c == ')' {
        Some(TokenType::RParen)
    } else if c == '{' {
        Some(TokenType::LBrace)
    } else if c == '}' {
        Some(TokenType::RBrace)
    } else if c == ',' {
        Some(TokenType::Comma)
    } else if c == ':' {
        Some(TokenType::Colon)
    } else if c == '[' {
        Some(TokenType::LeftBracket)
    } else if c == ']' {
        Some(TokenType::RightBracket)
    } else {
        None
    }
}

/// The token of a word.
fn keyword_token(word: String) -> (t: TokenType)
    ensures
        t@ == keyword(word@),
{
    if *word.as_str() == *"if" {
        TokenType::If
    } else if *word.as_str() == *"else" {
        TokenType::Else
    } else if *word.as_str() == *"while" {
        TokenType::While
    } else if *word.as_str() == *"fn" {
        TokenType::Function
    } else if *word.as_str() == *"return" {
        TokenType::Return
    } else if *word.as_str() == *"from" {
        TokenType::From
    } else if *word.as_str() == *"asm" {
        TokenType::Asm
    } else {
        TokenType::Identifier(word)
    }
}

/// One more digit multiplies the value by ten and adds the digit.
proof fn lemma_decimal_value_step(s: Seq<char>, a: int, i: int)
    requires
        0 <= a <= i < s.len(),
    ensures
        decimal_value(s.subrange(a, i + 1)) == 10 * decimal_value(s.subrange(a, i)) + (s[i] as nat
            - 48) as nat,
{
    let d = s.subrange(a, i + 1);
    assert(d.drop_last() =~= s.subrange(a, i));
}

impl Lexer {
    /// Moves to the end of the line.
    fn skip_line_comment(&mut self)
        ensures
            final(self)@ == (LexerState {
                cursor: skip_line(old(self)@.input, old(self)@.cursor),
                ..old(self)@
            }),
    {
        loop
            invariant
                self@.input == old(self)@.input,
                self@.file == old(self)@.file,
                skip_line(self@.input, self@.cursor) == skip_line(
                    old(self)@.input,
                    old(self)@.cursor,
                ),
            ensures
                self@ == (LexerState {
                    cursor: skip_line(old(self)@.input, old(self)@.cursor),
                    ..old(self)@
                }),
            decreases self@.input.len() - self@.cursor.pos,
        {
            match self.peek() {
                Some(ch) => {
                    if ch == '\n' {
                        break ;
                    }
                },
                None => {
                    break ;
                },
            }
            self.advance();
        }
    }

    /// Moves past the end of a block comment, or to the end of the input.
    fn skip_block_comment(&mut self)
        ensures
            final(self)@ == (LexerState {
                cursor: skip_block(old(self)@.input, old(self)@.cursor),
                ..old(self)@
            }),
    {
        loop
            invariant_except_break
                skip_block(self@.input, self@.cursor) == skip_block(
                    old(self)@.input,
                    old(self)@.cursor,
                ),
            invariant
                self@.input == old(self)@.input,
                self@.file == old(self)@.file,
            ensures
                self@ == (LexerState {
                    cursor: skip_block(old(self)@.input, old(self)@.cursor),
                    ..old(self)@
                }),
            decreases self@.input.len() - self@.cursor.pos,
        {
            match self.peek() {
                None => {
                    break ;
                },
                Some(ch) => {
                    self.advance();
                    if ch == '*' {
                        match self.peek() {
                            Some(next) => {
                                if next == '/' {
                                    self.advance();
                                    break ;
                                }
                            },
                            None => {},
                        }
                    }
                },
            }
        }
    }

    /// Moves past whitespace and comments: `//` to the end of the line and
    /// `/* ... */`, which does not nest. A `/` that opens no comment stays
    /// under the cursor.
    pub fn skip_whitespace_and_comments(&mut self)
        ensures
            final(self)@ == (LexerState {
                cursor: skip_blank(old(self)@.input, old(self)@.cursor),
                ..old(self)@
            }),
    {
        loop
            invariant_except_break
                skip_blank(self@.input, self@.cursor) == skip_blank(
                    old(self)@.input,
                    old(self)@.cursor,
                ),
            invariant
                self@.input == old(self)@.input,
                self@.file == old(self)@.file,
            ensures
                self@ == (LexerState {
                    cursor: skip_blank(old(self)@.input, old(self)@.cursor),
                    ..old(self)@
                }),
            decreases self@.input.len() - self@.cursor.pos,
        {
            proof {
                use_type_invariant(&*self);
                lemma_skips_forward(self@.input, self@.cursor);
            }
            let ghost before = self@.cursor;
            self.skip_whitespace();
            let ghost c1 = self@.cursor;
            let first = self.peek();
            let second = self.peek_next();
            let opens_line = match (first, second) {
                (Some(a), Some(b)) => a == '/' && b == '/',
                _ => false,
            };
            let opens_block = match (first, second) {
                (Some(a), Some(b)) => a == '/' && b == '*',
                _ => false,
            };
            if opens_line {
                self.advance();
                self.advance();
                proof {
                    lemma_skips_forward(self@.input, self@.cursor);
                }
                self.skip_line_comment();
            } else if opens_block {
                self.advance();
                self.advance();
                proof {
                    lemma_skips_forward(self@.input, self@.cursor);
                }
                self.skip_block_comment();
            } else {
                break ;
            }
        }
    }

    /// Reads a string literal from its opening quote.
    fn read_string(&mut self) -> (r: Result<Token>)
        requires
            peek(old(self)@.input, old(self)@.cursor) == Some('"'),
        ensures
            final(self)@ == (LexerState {
                cursor: scan_token(old(self)@.input, old(self)@.cursor).1,
                ..old(self)@
            }),
            agrees(r, scan_token(old(self)@.input, old(self)@.cursor).0, final(self)@),
    {
        let start_line = self.line;
        let start_column = self.column;
        self.advance();
        let mut text = String::new();
        let ghost from = self@.cursor;
        loop
            invariant
                self@.input == old(self)@.input,
                self@.file == old(self)@.file,
                start_column == old(self)@.cursor.column,
                start_line == old(self)@.cursor.line,
                peek(old(self)@.input, old(self)@.cursor) == Some('"'),
                from == advance(old(self)@.input, old(self)@.cursor),
                scan_string(self@.input, self@.cursor, text@) == scan_string(
                    self@.input,
                    from,
                    Seq::empty(),
                ),
            decreases self@.input.len() - self@.cursor.pos,
        {
            match self.peek() {
                None => {
                    return Err(self.syntax_error(String::from_str("unterminated string literal")));
                },
                Some(ch) => {
                    self.advance();
                    if ch == '"' {
                        return Ok(
                            Token {
                                token_type: TokenType::StringLiteral(text),
                                line: start_line,
                                column: start_column,
                            },
                        );
                    } else if ch == '\\' {
                        match self.peek() {
                            None => {
                                return Err(
                                    self.syntax_error(
                                        String::from_str("incomplete escape sequence"),
                                    ),
                                );
                            },
                            Some(code) => {
                                self.advance();
                                match escape_char(code) {
                                    Some(escaped) => {
                                        text.push(escaped);
                                    },
                                    None => {
                                        let mut message = String::from_str(
                                            "invalid escape sequence: \\",
                                        );
                                        message.push(code);
                                        return Err(self.syntax_error(message));
                                    },
                                }
                            },
                        }
                    } else {
                        text.push(ch);
                    }
                },
            }
        }
    }

    /// Reads a number from its first digit.
    fn read_number(&mut self) -> (r: Result<Token>)
        requires
            peek(old(self)@.input, old(self)@.cursor) is Some,
            is_digit(peek(old(self)@.input, old(self)@.cursor)->0),
        ensures
            final(self)@ == (LexerState {
                cursor: scan_token(old(self)@.input, old(self)@.cursor).1,
                ..old(self)@
            }),
            agrees(r, scan_token(old(self)@.input, old(self)@.cursor).0, final(self)@),
    {
        proof {
            use_type_invariant(&*self);
        }
        let start_line = self.line;
        let start_column = self.column;
        let start = self.position;
        let mut value: u64 = 0;
        let mut overflow = false;
        assert(self@.input.subrange(start as int, start as int) =~= Seq::empty());
        loop
            invariant
                self@.input == old(self)@.input,
                self@.file == old(self)@.file,
                start == old(self)@.cursor.pos,
                start <= self@.cursor.pos <= self@.input.len(),
                self@.cursor.line == old(self)@.cursor.line,
                skip_digits(self@.input, self@.cursor) == skip_digits(
                    old(self)@.input,
                    old(self)@.cursor,
                ),
                !overflow ==> value == decimal_value(
                    self@.input.subrange(start as int, self@.cursor.pos as int),
                ) && value <= i64::MAX,
                overflow ==> decimal_value(
                    self@.input.subrange(start as int, self@.cursor.pos as int),
                ) > i64::MAX,
            ensures
                self@.input == old(self)@.input,
                self@.file == old(self)@.file,
                start <= self@.cursor.pos <= self@.input.len(),
                self@.cursor == skip_digits(old(self)@.input, old(self)@.cursor),
                self@.cursor.line == old(self)@.cursor.line,
                !overflow ==> value == decimal_value(
                    self@.input.subrange(start as int, self@.cursor.pos as int),
                ) && value <= i64::MAX,
                overflow ==> decimal_value(
                    self@.input.subrange(start as int, self@.cursor.pos as int),
                ) > i64::MAX,
            decreases self@.input.len() - self@.cursor.pos,
        {
            proof {
                use_type_invariant(&*self);
            }
            match self.peek() {
                Some(ch) => {
                    if !(ch >= '0' && ch <= '9') {
                        break ;
                    }
                    proof {
                        lemma_decimal_value_step(
                            self@.input,
                            start as int,
                            self@.cursor.pos as int,
                        );
                    }
                    if !overflow {
                        let next: u128 = value as u128 * 10 + (ch as u32 - 48) as u128;
                        if next > i64::MAX as u128 {
                            overflow = true;
                        } else {
                            value = next as u64;
                        }
                    }
                    self.advance();
                },
                None => {
                    break ;
                },
            }
        }
        if overflow {
            let mut message = String::from_str("invalid number: ");
            push_chars(&mut message, &self.input, start, self.position);
            Err(self.syntax_error(message))
        } else {
            Ok(Token { token_type: TokenType::Number(value as i64), line: start_line, column: start_column })
        }
    }

    /// Moves past identifier characters.
    fn skip_word(&mut self)
        ensures
            final(self)@ == (LexerState {
                cursor: skip_word(old(self)@.input, old(self)@.cursor),
                ..old(self)@
            }),
            old(self)@.cursor.pos <= final(self)@.cursor.pos <= old(self)@.input.len(),
            final(self)@.cursor.line == old(self)@.cursor.line,
    {
        proof {
            use_type_invariant(&*self);
        }
        loop
            invariant
                self@.input == old(self)@.input,
                self@.file == old(self)@.file,
                old(self)@.cursor.pos <= self@.cursor.pos <= self@.input.len(),
                self@.cursor.line == old(self)@.cursor.line,
                skip_word(self@.input, self@.cursor) == skip_word(
                    old(self)@.input,
                    old(self)@.cursor,
                ),
            ensures
                self@ == (LexerState {
                    cursor: skip_word(old(self)@.input, old(self)@.cursor),
                    ..old(self)@
                }),
                old(self)@.cursor.pos <= self@.cursor.pos <= self@.input.len(),
                self@.cursor.line == old(self)@.cursor.line,
            decreases self@.input.len() - self@.cursor.pos,
        {
            match self.peek() {
                Some(ch) => {
                    let word = (ch >= 'a' && ch <= 'z') || (ch >= 'A' && ch <= 'Z') || ch == '_' || (
                    ch >= '0' && ch <= '9');
                    if !word {
                        break ;
                    }
                },
                None => {
                    break ;
                },
            }
            self.advance();
        }
    }

    /// Reads an identifier or a keyword from its first letter.
    fn read_identifier(&mut self) -> (r: Result<Token>)
        requires
            peek(old(self)@.input, old(self)@.cursor) is Some,
            is_letter(peek(old(self)@.input, old(self)@.cursor)->0),
        ensures
            final(self)@ == (LexerState {
                cursor: scan_token(old(self)@.input, old(self)@.cursor).1,
                ..old(self)@
            }),
            agrees(r, scan_token(old(self)@.input, old(self)@.cursor).0, final(self)@),
    {
        let start_line = self.line;
        let start_column = self.column;
        let start = self.position;
        self.skip_word();
        let mut word = String::new();
        push_chars(&mut word, &self.input, start, self.position);
        assert(word@ =~= between(old(self)@.input, old(self)@.cursor, self@.cursor));
        Ok(Token { token_type: keyword_token(word), line: start_line, column: start_column })
    }

    /// Reads a directive from its `@`.
    fn read_directive(&mut self) -> (r: Result<Token>)
        requires
            peek(old(self)@.input, old(self)@.cursor) == Some('@'),
        ensures
            final(self)@ == (LexerState {
                cursor: scan_token(old(self)@.input, old(self)@.cursor).1,
                ..old(self)@
            }),
            agrees(r, scan_token(old(self)@.input, old(self)@.cursor).0, final(self)@),
    {
        let start_line = self.line;
        let start_column = self.column;
        self.advance();
        let start = self.position;
        self.skip_word();
        let mut word = String::new();
        push_chars(&mut word, &self.input, start, self.position);
        assert(word@ =~= between(
            old(self)@.input,
            advance(old(self)@.input, old(self)@.cursor),
            self@.cursor,
        ));
        if *word.as_str() == *"include" {
            Ok(Token { token_type: TokenType::Include, line: start_line, column: start_column })
        } else {
            let mut message = String::from_str("unknown directive @");
            message.append(word.as_str());
            Err(self.syntax_error(message))
        }
    }

    /// The error for the character under the cursor, which starts no token.
    fn unexpected_character(&self, ch: char) -> (e: CompilerError)
        ensures
            e@ == error_at(
                self@,
                SpecErrorKind::SyntaxError("unexpected character: "@.push(ch)),
            ),
    {
        let mut message = String::from_str("unexpected character: ");
        message.push(ch);
        self.syntax_error(message)
    }

    /// Reads an operator of one or two characters.
    fn read_pair(&mut self, second: char, both: TokenType, single: Option<TokenType>) -> (r: Result<
        Token,
    >)
        requires
            peek(old(self)@.input, old(self)@.cursor) is Some,
        ensures
            final(self)@ == (LexerState {
                cursor: paired(
                    old(self)@.input,
                    old(self)@.cursor,
                    second,
                    both@,
                    match single {
                        Some(t) => Some(t@),
                        None => None,
                    },
                ).1,
                ..old(self)@
            }),
            agrees(
                r,
                paired(
                    old(self)@.input,
                    old(self)@.cursor,
                    second,
                    both@,
                    match single {
                        Some(t) => Some(t@),
                        None => None,
                    },
                ).0,
                final(self)@,
            ),
    {
        let start_line = self.line;
        let start_column = self.column;
        let follows = match self.peek_next() {
            Some(ch) => ch == second,
            None => false,
        };
        if follows {
            self.advance();
            self.advance();
            Ok(Token { token_type: both, line: start_line, column: start_column })
        } else {
            match single {
                Some(kind) => {
                    self.advance();
                    Ok(Token { token_type: kind, line: start_line, column: start_column })
                },
                None => {
                    proof {
                        use_type_invariant(&*self);
                    }
                    Err(self.unexpected_character(self.input[self.position]))
                },
            }
        }
    }

    /// The next token. Whitespace and comments before it are passed over; at
    /// the end of the input the token is `EOF`, again and again.
    pub fn next_token(&mut self) -> (r: Result<Token>)
        ensures
            final(self)@ == (LexerState {
                cursor: next_token(old(self)@.input, old(self)@.cursor).1,
                ..old(self)@
            }),
            agrees(r, next_token(old(self)@.input, old(self)@.cursor).0, final(self)@),
    {
        reveal(next_token);
        self.skip_whitespace_and_comments();
        match self.peek() {
            None => Ok(Token { token_type: TokenType::EOF, line: self.line, column: self.column }),
            Some(ch) => {
                if ch == '@' {
                    self.read_directive()
                } else if ch >= '0' && ch <= '9' {
                    self.read_number()
                } else if (ch >= 'a' && ch <= 'z') || (ch >= 'A' && ch <= 'Z') || ch == '_' {
                    self.read_identifier()
                } else if ch == '"' {
                    self.read_string()
                } else if ch == '=' {
                    self.read_pair('=', TokenType::Equals, Some(TokenType::Assign))
                } else if ch == '<' {
                    self.read_pair('=', TokenType::LessEqual, Some(TokenType::Less))
                } else if ch == '>' {
                    self.read_pair('=', TokenType::GreaterEqual, Some(TokenType::Greater))
                } else if ch == '!' {
                    self.read_pair('=', TokenType::NotEquals, None)
                } else if ch == '&' {
                    self.read_pair('&', TokenType::And, None)
                } else if ch == '|' {
                    self.read_pair('|', TokenType::Or, None)
                } else {
                    let start_line = self.line;
        let start_column = self.column;
                    match simple_token(ch) {
                        Some(kind) => {
                            self.advance();
                            Ok(Token { token_type: kind, line: start_line, column: start_column })
                        },
                        None => Err(self.unexpected_character(ch)),
                    }
                }
            },
        }
    }
}

} // verus!
