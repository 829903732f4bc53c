//! The state of a parse and its elementary steps: looking at the current
//! token, consuming it, and letting the scanner pass over blanks.

use vstd::prelude::*;
use crate::error::{SpecError, SpecErrorKind};
use crate::lexer::{
    describe, error_at, error_in, lemma_skip_blank_forward, lemma_token_progress, next_token,
    skip_blank, LexerState, Place, Tok,
};

verus! {

/// The part of a parser's state that parsing a statement reads and changes.
pub struct ParseState {
    /// The scanner. It stands after the current token.
    pub lexer: LexerState,
    /// The current token: the one token of lookahead.
    pub current: Tok,
    /// The place where the current token starts. The parser's errors point
    /// to it.
    pub place: Place,
    /// The functions declared so far, in the order of their first declaration.
    pub declared: Seq<Seq<char>>,
    /// The functions defined so far, in the order of their definition.
    pub defined: Seq<Seq<char>>,
    /// Whether the table of functions is enforced. The parser always
    /// enforces it; without it, parsing follows the grammar alone.
    pub strict: bool,
}

/// A failed parse: the first error, and the state in which it arose. What
/// was consumed before the error stays consumed, and nothing else changes.
pub type Failure = (SpecError, ParseState);

/// What parsing ends in: a value and the state after it, or a failure.
pub type Parsed<T> = std::result::Result<(T, ParseState), Failure>;

/// How much is left to parse: the characters after the scanner, and the
/// current token unless it is `EOF`.
pub open spec fn measure(st: ParseState) -> nat {
    (if st.lexer.cursor.pos <= st.lexer.input.len() {
        st.lexer.input.len() - st.lexer.cursor.pos
    } else {
        0
    }) as nat + if st.current is EOF {
        0nat
    } else {
        1nat
    }
}

/// The number of a token's kind, whatever its payload.
pub open spec fn kind_index(t: Tok) -> nat {
    match t {
        Tok::Number(_) => 0,
        Tok::Identifier(_) => 1,
        Tok::Plus => 2,
        Tok::Minus => 3,
        Tok::Multiply => 4,
        Tok::Divide => 5,
        Tok::Assign => 6,
        Tok::Semicolon => 7,
        Tok::LParen => 8,
        Tok::RParen => 9,
        Tok::LBrace => 10,
        Tok::RBrace => 11,
        Tok::If => 12,
        Tok::Else => 13,
        Tok::While => 14,
        Tok::Equals => 15,
        Tok::NotEquals => 16,
        Tok::Less => 17,
        Tok::Greater => 18,
        Tok::Function => 19,
        Tok::Return => 20,
        Tok::Comma => 21,
        Tok::StringLiteral(_) => 22,
        Tok::LessEqual => 23,
        Tok::GreaterEqual => 24,
        Tok::And => 25,
        Tok::Or => 26,
        Tok::Include => 27,
        Tok::From => 28,
        Tok::Asm => 29,
        Tok::Colon => 30,
        Tok::LeftBracket => 31,
        Tok::RightBracket => 32,
        Tok::EOF => 33,
    }
}

/// Whether two tokens are of the same kind.
pub open spec fn same_kind(a: Tok, b: Tok) -> bool {
    kind_index(a) == kind_index(b)
}

/// A syntax error at the place where the current token starts.
pub open spec fn syntax_error(st: ParseState, message: Seq<char>) -> SpecError {
    error_in(st.lexer, st.place, SpecErrorKind::SyntaxError(message))
}

/// The failure with a syntax error in the state `st`, which stays as it is.
pub open spec fn fail(st: ParseState, message: Seq<char>) -> Failure {
    (syntax_error(st, message), st)
}

/// The failure of a parse that moved backwards. It never arises.
pub open spec fn stuck(st: ParseState) -> Failure {
    fail(st, "parser did not advance"@)
}

/// The state after the scanner read the next token into the lookahead, or
/// the scanner's error, which points to where the scanner stands, with the
/// scanner at the place of the error and the lookahead as it was.
pub open spec fn shift(st: ParseState) -> std::result::Result<ParseState, Failure> {
    let (r, c) = next_token(st.lexer.input, st.lexer.cursor);
    let lexer = LexerState { cursor: c, ..st.lexer };
    match r {
        Ok(t) => Ok(
            ParseState {
                lexer,
                current: t.kind,
                place: Place { line: t.line, column: t.column },
                ..st
            },
        ),
        Err(message) => Err(
            (error_at(lexer, SpecErrorKind::SyntaxError(message)), ParseState { lexer, ..st }),
        ),
    }
}

/// The error for a current token that is not of the expected kind, at the
/// place where that token starts.
pub open spec fn unexpected(st: ParseState, expected: Tok) -> SpecError {
    error_in(
        st.lexer,
        st.place,
        SpecErrorKind::UnexpectedToken {
            expected: describe(expected),
            found: describe(st.current),
        },
    )
}

/// Consumes the current token, which must be of the expected kind. A token
/// of another kind is an error that consumes nothing.
#[verifier::opaque]
pub open spec fn eat(st: ParseState, expected: Tok) -> std::result::Result<ParseState, Failure> {
    if same_kind(st.current, expected) {
        match shift(st) {
            Ok(st1) => if measure(st1) < measure(st) {
                Ok(st1)
            } else {
                Err(stuck(st))
            },
            Err(e) => Err(e),
        }
    } else {
        Err((unexpected(st, expected), st))
    }
}

/// The test in `eat` never fails: a token other than `EOF` is consumed by
/// reading the next one, which leaves less to parse.
pub proof fn lemma_eat(st: ParseState, expected: Tok)
    requires
        !(expected is EOF),
    ensures
        same_kind(st.current, expected) ==> eat(st, expected) == shift(st),
        !same_kind(st.current, expected) ==> eat(st, expected) == Err::<ParseState, Failure>(
            (unexpected(st, expected), st),
        ),
{
    reveal(eat);
    lemma_token_progress(st.lexer.input, st.lexer.cursor);
}

/// Consuming a token leaves less to parse, and touches neither the input
/// nor the table of functions.
pub broadcast proof fn lemma_eat_moves(st: ParseState, expected: Tok)
    ensures
        #[trigger] eat(st, expected) matches Ok(st1) ==> measure(st1) < measure(st)
            && st1.declared == st.declared && st1.defined == st.defined && st1.strict == st.strict
            && st1.lexer.input == st.lexer.input && st1.lexer.file == st.lexer.file && same_kind(
            st.current,
            expected,
        ),
{
    reveal(eat);
}

/// The state after the scanner passed over whitespace and comments.
pub open spec fn skip(st: ParseState) -> ParseState {
    ParseState {
        lexer: LexerState { cursor: skip_blank(st.lexer.input, st.lexer.cursor), ..st.lexer },
        ..st
    }
}

/// Passing over whitespace and comments leaves no more to parse than before.
pub proof fn lemma_skip(st: ParseState)
    ensures
        measure(skip(st)) <= measure(st),
{
    lemma_skip_blank_forward(st.lexer.input, st.lexer.cursor);
}

/// A result whose state leaves at most `limit` to parse.
pub open spec fn within<T>(r: Parsed<T>, limit: int) -> Parsed<T> {
    match r {
        Ok((value, st)) => if measure(st) <= limit {
            r
        } else {
            Err(stuck(st))
        },
        Err(e) => r,
    }
}

/// The state of a parser that follows the grammar alone.
pub open spec fn relaxed(st: ParseState) -> ParseState {
    ParseState { strict: false, ..st }
}

/// The state of a parser that enforces the table of functions.
pub open spec fn enforced(st: ParseState) -> ParseState {
    ParseState { strict: true, ..st }
}

/// A state with the state of a parser that enforces the table.
pub open spec fn enforce(r: std::result::Result<ParseState, Failure>) -> std::result::Result<
    ParseState,
    Failure,
> {
    match r {
        Ok(st) => Ok(enforced(st)),
        Err((e, st)) => Err((e, enforced(st))),
    }
}

/// Consuming a token does not look at the table.
pub broadcast proof fn lemma_eat_enforced(b: ParseState, expected: Tok)
    ensures
        #[trigger] eat(enforced(b), expected) == enforce(eat(b, expected)),
{
    reveal(eat);
}

} // verus!
