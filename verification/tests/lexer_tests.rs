use zedc::error::{CompilerError, ErrorKind};
use zedc::lexer::{Lexer, Token, TokenType};

fn lex_all(source: &str) -> Result<Vec<Token>, CompilerError> {
    let mut lexer = Lexer::new(source, "test.zed".to_string());
    let mut tokens = Vec::new();
    loop {
        let token = lexer.next_token()?;
        let done = token.token_type == TokenType::EOF;
        tokens.push(token);
        if done {
            return Ok(tokens);
        }
    }
}

fn kinds(source: &str) -> Vec<TokenType> {
    lex_all(source).unwrap().into_iter().map(|t| t.token_type).collect()
}

fn syntax_message(source: &str) -> String {
    match lex_all(source) {
        Err(e) => match e.kind {
            ErrorKind::SyntaxError(message) => message,
            other => panic!("unexpected kind {:?}", other),
        },
        Ok(tokens) => panic!("lexed {:?}", tokens),
    }
}

#[test]
fn empty_input_is_end_of_file() {
    let tokens = lex_all("").unwrap();
    assert_eq!(tokens.len(), 1);
    assert_eq!(tokens[0].token_type, TokenType::EOF);
    assert_eq!((tokens[0].line, tokens[0].column), (1, 1));
}

#[test]
fn punctuation_and_operators() {
    assert_eq!(
        kinds("; , : ( ) { } [ ] + - * / ="),
        vec![
            TokenType::Semicolon,
            TokenType::Comma,
            TokenType::Colon,
            TokenType::LParen,
            TokenType::RParen,
            TokenType::LBrace,
            TokenType::RBrace,
            TokenType::LeftBracket,
            TokenType::RightBracket,
            TokenType::Plus,
            TokenType::Minus,
            TokenType::Multiply,
            TokenType::Divide,
            TokenType::Assign,
            TokenType::EOF,
        ]
    );
}

#[test]
fn two_character_operators_come_first() {
    assert_eq!(
        kinds("== != <= >= && || < > ="),
        vec![
            TokenType::Equals,
            TokenType::NotEquals,
            TokenType::LessEqual,
            TokenType::GreaterEqual,
            TokenType::And,
            TokenType::Or,
            TokenType::Less,
            TokenType::Greater,
            TokenType::Assign,
            TokenType::EOF,
        ]
    );
    assert_eq!(kinds("a<=b"), vec![
        TokenType::Identifier("a".to_string()),
        TokenType::LessEqual,
        TokenType::Identifier("b".to_string()),
        TokenType::EOF,
    ]);
    assert_eq!(kinds("==="), vec![TokenType::Equals, TokenType::Assign, TokenType::EOF]);
}

#[test]
fn keywords_and_identifiers() {
    assert_eq!(
        kinds("if else while fn return from asm iffy _x x1 While"),
        vec![
            TokenType::If,
            TokenType::Else,
            TokenType::While,
            TokenType::Function,
            TokenType::Return,
            TokenType::From,
            TokenType::Asm,
            TokenType::Identifier("iffy".to_string()),
            TokenType::Identifier("_x".to_string()),
            TokenType::Identifier("x1".to_string()),
            TokenType::Identifier("While".to_string()),
            TokenType::EOF,
        ]
    );
}

#[test]
fn numbers() {
    assert_eq!(kinds("0 42 007"), vec![
        TokenType::Number(0),
        TokenType::Number(42),
        TokenType::Number(7),
        TokenType::EOF,
    ]);
    assert_eq!(kinds("9223372036854775807"), vec![TokenType::Number(i64::MAX), TokenType::EOF]);
    assert_eq!(kinds("-3"), vec![TokenType::Minus, TokenType::Number(3), TokenType::EOF]);
}

#[test]
fn number_overflow_is_a_syntax_error() {
    assert_eq!(syntax_message("9223372036854775808"), "invalid number: 9223372036854775808");
    assert_eq!(
        syntax_message("x = 123456789012345678901234567890;"),
        "invalid number: 123456789012345678901234567890"
    );
}

#[test]
fn string_escapes() {
    assert_eq!(
        kinds(r#""a\n\t\r\\\"\0\b\f\v\'z""#),
        vec![
            TokenType::StringLiteral("a\n\t\r\\\"\0\u{8}\u{c}\u{b}'z".to_string()),
            TokenType::EOF,
        ]
    );
    assert_eq!(kinds(r#""""#), vec![TokenType::StringLiteral(String::new()), TokenType::EOF]);
}

#[test]
fn string_errors() {
    assert_eq!(syntax_message("\"abc"), "unterminated string literal");
    assert_eq!(syntax_message("\"abc\\"), "incomplete escape sequence");
    assert_eq!(syntax_message("\"a\\qb\""), "invalid escape sequence: \\q");
}

#[test]
fn directives() {
    assert_eq!(kinds("@include \"a.zed\";"), vec![
        TokenType::Include,
        TokenType::StringLiteral("a.zed".to_string()),
        TokenType::Semicolon,
        TokenType::EOF,
    ]);
    assert_eq!(syntax_message("@define x"), "unknown directive @define");
    assert_eq!(syntax_message("@"), "unknown directive @");
}

#[test]
fn unexpected_characters() {
    assert_eq!(syntax_message("a # b"), "unexpected character: #");
    assert_eq!(syntax_message("!a"), "unexpected character: !");
    assert_eq!(syntax_message("a & b"), "unexpected character: &");
    assert_eq!(syntax_message("a | b"), "unexpected character: |");
    assert_eq!(syntax_message("é"), "unexpected character: é");
}

#[test]
fn comments_are_skipped() {
    assert_eq!(kinds("a // b c\n d"), vec![
        TokenType::Identifier("a".to_string()),
        TokenType::Identifier("d".to_string()),
        TokenType::EOF,
    ]);
    assert_eq!(kinds("a /* b \n * c **/ d"), vec![
        TokenType::Identifier("a".to_string()),
        TokenType::Identifier("d".to_string()),
        TokenType::EOF,
    ]);
    // block comments do not nest
    assert_eq!(kinds("/* a /* b */ c */"), vec![
        TokenType::Identifier("c".to_string()),
        TokenType::Multiply,
        TokenType::Divide,
        TokenType::EOF,
    ]);
    // an unterminated block comment runs to the end of the input
    assert_eq!(kinds("a /* b"), vec![TokenType::Identifier("a".to_string()), TokenType::EOF]);
    assert_eq!(kinds("// only"), vec![TokenType::EOF]);
}

#[test]
fn slash_that_opens_no_comment_is_division() {
    assert_eq!(kinds("a / b"), vec![
        TokenType::Identifier("a".to_string()),
        TokenType::Divide,
        TokenType::Identifier("b".to_string()),
        TokenType::EOF,
    ]);
    let tokens = lex_all("  /").unwrap();
    assert_eq!(tokens[0].token_type, TokenType::Divide);
    assert_eq!((tokens[0].line, tokens[0].column), (1, 3));
}

#[test]
fn skip_whitespace_and_comments_backs_up_before_division() {
    let mut lexer = Lexer::new("  /* c */ // d\n  / 2", "t.zed".to_string());
    lexer.skip_whitespace_and_comments();
    lexer.skip_whitespace_and_comments();
    let token = lexer.next_token().unwrap();
    assert_eq!(token.token_type, TokenType::Divide);
    assert_eq!((token.line, token.column), (2, 3));
}

#[test]
fn lines_and_columns() {
    let tokens = lex_all("x = 10;\n  while (y)\n\"s\"").unwrap();
    let places: Vec<(usize, usize)> = tokens.iter().map(|t| (t.line, t.column)).collect();
    assert_eq!(
        places,
        vec![(1, 1), (1, 3), (1, 5), (1, 7), (2, 3), (2, 9), (2, 10), (2, 11), (3, 1), (3, 4)]
    );
}

#[test]
fn string_token_is_located_at_its_opening_quote() {
    let tokens = lex_all(" \"a\nb\" c").unwrap();
    assert_eq!(tokens[0].token_type, TokenType::StringLiteral("a\nb".to_string()));
    assert_eq!((tokens[0].line, tokens[0].column), (1, 2));
    assert_eq!((tokens[1].line, tokens[1].column), (2, 4));
    let tokens = lex_all("\"a\nb\"").unwrap();
    assert_eq!((tokens[0].line, tokens[0].column), (1, 1));
    assert_eq!((tokens[1].line, tokens[1].column), (2, 3));
}

#[test]
fn unicode_whitespace_is_skipped() {
    assert_eq!(kinds("a\u{a0}\u{2003}b\u{3000}"), vec![
        TokenType::Identifier("a".to_string()),
        TokenType::Identifier("b".to_string()),
        TokenType::EOF,
    ]);
}

#[test]
fn error_carries_place_and_source_line() {
    let error = lex_all("a = 1;\nb = $;\nc").unwrap_err();
    assert_eq!(error.location.line, 2);
    assert_eq!(error.location.column, 5);
    assert_eq!(error.location.file, "test.zed");
    assert_eq!(error.source_line, "b = $;");
}

#[test]
fn create_error_beyond_the_last_line_has_no_source_line() {
    let mut lexer = Lexer::new("a\n", "f.zed".to_string());
    lexer.next_token().unwrap();
    lexer.next_token().unwrap();
    let error = lexer.create_error(ErrorKind::IOError("gone".to_string()));
    assert_eq!((error.location.line, error.location.column), (2, 1));
    assert_eq!(error.source_line, "");
    let text = error.format_plain();
    assert_eq!(text, "error: IO error: gone\n  --> f.zed:2:1\n   2 | \n     | ^\n");
}

#[test]
fn carriage_return_before_line_feed_is_not_part_of_the_source_line() {
    let error = lex_all("a\r\n  #\r\n").unwrap_err();
    assert_eq!(error.source_line, "  #");
    assert_eq!((error.location.line, error.location.column), (2, 3));
}

#[test]
fn token_names() {
    assert_eq!(TokenType::Number(-5).describe(), "number -5");
    assert_eq!(TokenType::Identifier("ab".to_string()).describe(), "identifier ab");
    assert_eq!(TokenType::StringLiteral("s".to_string()).describe(), "string \"s\"");
    assert_eq!(TokenType::LBrace.describe(), "{");
    assert_eq!(TokenType::Include.describe(), "@include");
    assert_eq!(TokenType::EOF.describe(), "end of file");
    assert_eq!(TokenType::NotEquals.describe(), "!=");
}

/// Lexes the canonical form of a token and checks that it comes back as
/// itself, from the first column to the end of the text, followed by the end
/// of the file.
fn round_trip(form: &str, expected: TokenType) {
    let tokens = lex_all(form).unwrap();
    assert_eq!(tokens.len(), 2, "{:?}", form);
    assert_eq!(tokens[0].token_type, expected);
    assert_eq!((tokens[0].line, tokens[0].column), (1, 1));
    assert_eq!(tokens[1].token_type, TokenType::EOF);
    assert_eq!((tokens[1].line, tokens[1].column), (1, 1 + form.chars().count()));
}

#[test]
fn token_round_trip() {
    let fixed = [
        TokenType::Plus,
        TokenType::Minus,
        TokenType::Multiply,
        TokenType::Divide,
        TokenType::Assign,
        TokenType::Semicolon,
        TokenType::LParen,
        TokenType::RParen,
        TokenType::LBrace,
        TokenType::RBrace,
        TokenType::If,
        TokenType::Else,
        TokenType::While,
        TokenType::Equals,
        TokenType::NotEquals,
        TokenType::Less,
        TokenType::Greater,
        TokenType::Function,
        TokenType::Return,
        TokenType::Comma,
        TokenType::LessEqual,
        TokenType::GreaterEqual,
        TokenType::And,
        TokenType::Or,
        TokenType::Include,
        TokenType::From,
        TokenType::Asm,
        TokenType::Colon,
        TokenType::LeftBracket,
        TokenType::RightBracket,
    ];
    for token in fixed {
        round_trip(&token.describe(), token);
    }
    round_trip("0", TokenType::Number(0));
    round_trip("1234567890", TokenType::Number(1234567890));
    round_trip("9223372036854775807", TokenType::Number(i64::MAX));
    round_trip("x", TokenType::Identifier("x".to_string()));
    round_trip("_tmp_9", TokenType::Identifier("_tmp_9".to_string()));
    round_trip("iff", TokenType::Identifier("iff".to_string()));
    round_trip("\"\"", TokenType::StringLiteral(String::new()));
    round_trip("\"a b\"", TokenType::StringLiteral("a b".to_string()));
    round_trip("\"q\\\"b\\\\\"", TokenType::StringLiteral("q\"b\\".to_string()));
    let tokens = lex_all("").unwrap();
    assert_eq!(tokens.len(), 1);
}
