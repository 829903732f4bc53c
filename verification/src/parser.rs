//! The parser: recursive descent with one token of lookahead, the table of
//! declared and defined functions, and the files of a translation unit.
//!
//! The parser does not read files. Where the source says `@include`, parsing
//! stops with a request; the caller resolves and reads the file and hands it
//! to the parser, which goes on in it and comes back when it ends.

use vstd::prelude::*;
use vstd::string::*;
use crate::ast::{asts, Ast, AstNode, BinaryOperator};
use crate::error::{CompilerError, ErrorKind, Result, SpecError, SpecErrorKind};
use crate::grammar::{
    additive_operator, comparison_operator, logical_operator, multiplicative_operator,
    parse_additive, parse_additive_rest, parse_arguments, parse_assignment, parse_block,
    parse_block_items, parse_clobber, parse_clobber_section, parse_clobbers, parse_comparison,
    parse_comparison_rest, parse_expression, parse_function_call, parse_function_declaration,
    parse_if_statement, parse_inline_asm, parse_logical, parse_logical_rest,
    parse_more_parameters, parse_multiplicative, parse_multiplicative_rest, parse_name,
    parse_operand, parse_operands, parse_parameters, parse_primary, parse_return_statement,
    parse_section, parse_statement, parse_string, parse_while_statement,
};
use crate::stream::{
    eat, kind_index, lemma_eat, lemma_skip, measure, same_kind, shift, skip, syntax_error,
    unexpected, within, Failure, ParseState, Parsed,
};
use crate::lexer::{error_in, start, Lexer, LexerState, Place, Tok, Token, TokenType};
use crate::text::{
    chars_of, find, intern, lemma_texts_push, position, push_chars, text_pairs, texts,
};

verus! {

broadcast use crate::stream::lemma_eat_moves;

/// A file that waits for an included file to end, as mathematics.
pub struct FrameView {
    pub lexer: LexerState,
    pub current: Tok,
    pub place: Place,
    pub directory: Seq<char>,
}

/// What a parser holds, as mathematics.
pub struct ParserView {
    /// The scanner of the file being parsed, the current token, and the
    /// functions declared and defined so far.
    pub state: ParseState,
    /// The canonical paths of the files included so far.
    pub included: Seq<Seq<char>>,
    /// The directory of the file being parsed.
    pub directory: Seq<char>,
    /// The root of the standard library, if one was configured.
    pub stdlib: Option<Seq<char>>,
    /// The files that wait for the one being parsed to end, the outermost first.
    pub suspended: Seq<FrameView>,
    /// The top-level nodes parsed so far, over all files.
    pub nodes: Seq<Ast>,
    /// The place of the last include directive, in the file that holds it.
    /// The errors of that include point to it.
    pub directive: Place,
}

/// Where an included file is looked for, as mathematics.
pub struct RequestView {
    pub path: Seq<char>,
    pub std: bool,
    pub base: Option<Seq<char>>,
}

/// What a run of the parser ends in, as mathematics.
pub enum Step {
    /// The translation unit is parsed: its top-level nodes, in source order,
    /// the nodes of an included file in the place of its directive.
    Done(Seq<Ast>),
    /// The file being parsed includes another one.
    Include(RequestView),
}

/// Whether an include names a file of the standard library.
pub open spec fn is_std(path: Seq<char>) -> bool {
    path.len() >= 4 && path[0] == 's' && path[1] == 't' && path[2] == 'd' && path[3] == '/'
}

/// Where the file of an include is looked for: under the root of the
/// standard library, without the prefix `std/`, or in the directory of the
/// including file.
pub open spec fn request(p: ParserView, path: Seq<char>) -> RequestView {
    if is_std(path) {
        RequestView { path: path.subrange(4, path.len() as int), std: true, base: p.stdlib }
    } else {
        RequestView { path, std: false, base: Some(p.directory) }
    }
}

/// `@include STRING ';'`
#[verifier::opaque]
pub open spec fn parse_include(st: ParseState) -> Parsed<Seq<char>> {
    match eat(st, Tok::Include) {
        Ok(st1) => match parse_string(st1, "expected string literal after @include"@) {
            Ok((path, st2)) => match eat(st2, Tok::Semicolon) {
                Ok(st3) => Ok((path, st3)),
                Err(e) => Err(e),
            },
            Err(e) => Err(e),
        },
        Err(e) => Err(e),
    }
}

/// The first function from index `i` on that is declared and not defined.
pub open spec fn first_undefined(
    declared: Seq<Seq<char>>,
    defined: Seq<Seq<char>>,
    i: nat,
) -> Option<Seq<char>>
    decreases declared.len() - i,
{
    if i >= declared.len() {
        None
    } else if position(defined, declared[i as int]) >= defined.len() {
        Some(declared[i as int])
    } else {
        first_undefined(declared, defined, i + 1)
    }
}

/// The parser back in the file that included the one which has ended.
pub open spec fn resume(p: ParserView) -> ParserView {
    let frame = p.suspended.last();
    ParserView {
        state: ParseState {
            lexer: frame.lexer,
            current: frame.current,
            place: frame.place,
            ..p.state
        },
        directory: frame.directory,
        suspended: p.suspended.drop_last(),
        ..p
    }
}

/// A run of the parser: statement after statement, up to the next include or
/// to the end of the translation unit. At the end of an included file the
/// run goes on in the including one. At the end of the unit every declared
/// function must be defined.
#[verifier::opaque]
pub open spec fn run(p: ParserView) -> std::result::Result<(Step, ParserView), (SpecError, ParserView)>
    decreases p.suspended.len(), measure(p.state),
{
    if p.state.current is EOF {
        if p.suspended.len() > 0 {
            run(resume(p))
        } else {
            match first_undefined(p.state.declared, p.state.defined, 0) {
                Some(name) if p.state.strict => Err(
                    (
                        syntax_error(
                            p.state,
                            "function '"@ + name + "' declared but not defined"@,
                        ),
                        p,
                    ),
                ),
                _ => Ok((Step::Done(p.nodes), ParserView { nodes: Seq::empty(), ..p })),
            }
        }
    } else if p.state.current is Include {
        match parse_include(p.state) {
            Ok((path, st1)) => Ok(
                (
                    Step::Include(request(p, path)),
                    ParserView { state: st1, directive: p.state.place, ..p },
                ),
            ),
            Err((e, st1)) => Err((e, ParserView { state: st1, ..p })),
        }
    } else {
        match within(parse_statement(p.state), measure(p.state) - 1) {
            Ok((node, st1)) => run(ParserView { state: st1, nodes: p.nodes.push(node), ..p }),
            Err((e, st1)) => Err((e, ParserView { state: st1, ..p })),
        }
    }
}

/// The parser after a file was registered for inclusion, or the error for a
/// file that was included before: a file is included at most once. The
/// error points to the directive.
pub open spec fn register(p: ParserView, full_path: Seq<char>, canonical: Seq<char>) -> std::result::Result<
    ParserView,
    SpecError,
> {
    if position(p.included, canonical) < p.included.len() {
        Err(
            error_in(
                p.state.lexer,
                p.directive,
                SpecErrorKind::SyntaxError("circular include detected: "@ + full_path),
            ),
        )
    } else {
        Ok(ParserView { included: p.included.push(canonical), ..p })
    }
}

/// The parser at the first token of an included file, the including file
/// waiting, or the scanner's error for that token.
pub open spec fn enter(
    p: ParserView,
    source: Seq<char>,
    canonical: Seq<char>,
    directory: Seq<char>,
) -> std::result::Result<ParserView, SpecError> {
    let waiting = FrameView {
        lexer: p.state.lexer,
        current: p.state.current,
        place: p.state.place,
        directory: p.directory,
    };
    let opened = ParseState {
        lexer: LexerState { input: source, cursor: start(), file: canonical },
        current: Tok::EOF,
        ..p.state
    };
    match shift(opened) {
        Ok(st) => Ok(
            ParserView { state: st, directory, suspended: p.suspended.push(waiting), ..p },
        ),
        Err((e, _)) => Err(e),
    }
}

/// Why a file could not be included.
#[derive(Debug)]
pub enum IncludeFailure {
    /// The root of the standard library is not configured and has no default.
    NoStdlib(String),
    /// The path names no file.
    Unresolved { path: String, reason: String },
    /// The file cannot be read.
    Unreadable { path: String, reason: String },
}

/// The message for a file that could not be included.
pub open spec fn failure_message(failure: IncludeFailure) -> Seq<char> {
    match failure {
        IncludeFailure::NoStdlib(reason) => "couldn't determine stdlib path: "@ + reason@,
        IncludeFailure::Unresolved { path, reason } => "failed to resolve path '"@ + path@ + "': "@
            + reason@,
        IncludeFailure::Unreadable { path, reason } => "couldn't read '"@ + path@ + "': "@
            + reason@,
    }
}

/// Where an included file is looked for.
#[derive(Debug)]
pub struct IncludeRequest {
    /// The path as the directive gives it, without `std/` for a file of the
    /// standard library.
    pub path: String,
    /// Whether the file belongs to the standard library.
    pub std: bool,
    /// The directory against which the path is resolved: the configured
    /// root of the standard library (none where none is configured), or the
    /// directory of the including file.
    pub base: Option<String>,
}

impl View for IncludeRequest {
    type V = RequestView;

    open spec fn view(&self) -> RequestView {
        RequestView {
            path: self.path@,
            std: self.std,
            base: match self.base {
                Some(base) => Some(base@),
                None => None,
            },
        }
    }
}

/// What a run of the parser ends in.
#[derive(Debug)]
pub enum ParseStep {
    /// The translation unit is parsed: here are its top-level nodes.
    Done(Vec<AstNode>),
    /// The file being parsed includes another one. Resolve it, register it with
    /// `register_include`, read it, enter it with `enter_include`, and run again.
    Include(IncludeRequest),
}

impl View for ParseStep {
    type V = Step;

    open spec fn view(&self) -> Step {
        match self {
            ParseStep::Done(nodes) => Step::Done(asts(nodes@)),
            ParseStep::Include(request) => Step::Include(request@),
        }
    }
}

/// A file that waits for an included file to end.
struct Frame {
    lexer: Lexer,
    current_token: Token,
    current_dir: String,
}

impl View for Frame {
    type V = FrameView;

    closed spec fn view(&self) -> FrameView {
        FrameView {
            lexer: self.lexer@,
            current: self.current_token.token_type@,
            place: Place {
                line: self.current_token.line as nat,
                column: self.current_token.column as nat,
            },
            directory: self.current_dir@,
        }
    }
}

/// The parser of one translation unit.
pub struct Parser {
    lexer: Lexer,
    current_token: Token,
    declared_functions: Vec<String>,
    defined_functions: Vec<String>,
    included_files: Vec<String>,
    current_dir: String,
    stdlib_path: Option<String>,
    suspended: Vec<Frame>,
    statements: Vec<AstNode>,
    directive: (usize, usize),
}

impl View for Parser {
    type V = ParserView;

    closed spec fn view(&self) -> ParserView {
        ParserView {
            state: ParseState {
                lexer: self.lexer@,
                current: self.current_token.token_type@,
                place: Place {
                    line: self.current_token.line as nat,
                    column: self.current_token.column as nat,
                },
                declared: texts(self.declared_functions@),
                defined: texts(self.defined_functions@),
                strict: true,
            },
            included: texts(self.included_files@),
            directory: self.current_dir@,
            stdlib: match self.stdlib_path {
                Some(path) => Some(path@),
                None => None,
            },
            suspended: Seq::new(self.suspended@.len(), |i: int| self.suspended@[i]@),
            nodes: asts(self.statements@),
            directive: Place { line: self.directive.0 as nat, column: self.directive.1 as nat },
        }
    }
}

/// Whether an executable result is the parsed one: the same value and the
/// same state after it, with less left to parse and nothing else changed, or
/// the same error with the parser in the state in which the error arose and
/// nothing else changed.
pub open spec fn parsed_as<T: View>(
    r: Result<T>,
    expected: Parsed<T::V>,
    before: ParserView,
    after: ParserView,
) -> bool {
    match r {
        Ok(value) => expected == Ok::<(T::V, ParseState), Failure>((value@, after.state))
            && after == (ParserView { state: after.state, ..before }) && measure(after.state)
            < measure(before.state),
        Err(e) => expected == Err::<(T::V, ParseState), Failure>((e@, after.state)) && after == (
        ParserView { state: after.state, ..before }),
    }
}

/// The same for a step that may consume nothing.
pub open spec fn continued_as<T: View>(
    r: Result<T>,
    expected: Parsed<T::V>,
    before: ParserView,
    after: ParserView,
) -> bool {
    match r {
        Ok(value) => expected == Ok::<(T::V, ParseState), Failure>((value@, after.state))
            && after == (ParserView { state: after.state, ..before }) && measure(after.state)
            <= measure(before.state),
        Err(e) => expected == Err::<(T::V, ParseState), Failure>((e@, after.state)) && after == (
        ParserView { state: after.state, ..before }),
    }
}

/// The same for a list of nodes.
pub open spec fn listed_as(
    r: Result<Vec<AstNode>>,
    expected: Parsed<Seq<Ast>>,
    before: ParserView,
    after: ParserView,
) -> bool {
    match r {
        Ok(list) => expected == Ok::<(Seq<Ast>, ParseState), Failure>(
            (asts(list@), after.state),
        ) && after == (ParserView { state: after.state, ..before }) && measure(after.state)
            <= measure(before.state),
        Err(e) => expected == Err::<(Seq<Ast>, ParseState), Failure>((e@, after.state)) && after
            == (ParserView { state: after.state, ..before }),
    }
}

/// The same for a result that is given by its mathematical value.
pub open spec fn stepped<V>(
    r: std::result::Result<V, SpecError>,
    expected: Parsed<V>,
    before: ParserView,
    after: ParserView,
) -> bool {
    match r {
        Ok(value) => expected == Ok::<(V, ParseState), Failure>((value, after.state)) && after
            == (ParserView { state: after.state, ..before }) && measure(after.state) <= measure(
            before.state,
        ),
        Err(e) => expected == Err::<(V, ParseState), Failure>((e, after.state)) && after == (
        ParserView { state: after.state, ..before }),
    }
}

/// The number of a token's kind.
fn kind_index_of(t: &TokenType) -> (k: u8)
    ensures
        k == kind_index(t@),
{
    match t {
        TokenType::Number(_) => 0,
        TokenType::Identifier(_) => 1,
        TokenType::Plus => 2,
        TokenType::Minus => 3,
        TokenType::Multiply => 4,
        TokenType::Divide => 5,
        TokenType::Assign => 6,
        TokenType::Semicolon => 7,
        TokenType::LParen => 8,
        TokenType::RParen => 9,
        TokenType::LBrace => 10,
        TokenType::RBrace => 11,
        TokenType::If => 12,
        TokenType::Else => 13,
        TokenType::While => 14,
        TokenType::Equals => 15,
        TokenType::NotEquals => 16,
        TokenType::Less => 17,
        TokenType::Greater => 18,
        TokenType::Function => 19,
        TokenType::Return => 20,
        TokenType::Comma => 21,
        TokenType::StringLiteral(_) => 22,
        TokenType::LessEqual => 23,
        TokenType::GreaterEqual => 24,
        TokenType::And => 25,
        TokenType::Or => 26,
        TokenType::Include => 27,
        TokenType::From => 28,
        TokenType::Asm => 29,
        TokenType::Colon => 30,
        TokenType::LeftBracket => 31,
        TokenType::RightBracket => 32,
        TokenType::EOF => 33,
    }
}

impl Parser {
    /// A parser for the file that `lexer` scans, which lies in `current_dir`.
    /// The first token is read at once.
    pub fn new(lexer: Lexer, current_dir: String) -> (r: Result<Self>)
        ensures
            match r {
                Ok(parser) => shift(
                    ParseState {
                        lexer: lexer@,
                        current: Tok::EOF,
                        place: Place { line: 0, column: 0 },
                        declared: Seq::empty(),
                        defined: Seq::empty(),
                        strict: true,
                    },
                ) == Ok::<ParseState, Failure>(parser@.state) && parser@ == (ParserView {
                    state: parser@.state,
                    included: Seq::empty(),
                    directory: current_dir@,
                    stdlib: None,
                    suspended: Seq::empty(),
                    nodes: Seq::empty(),
                    directive: Place { line: 0, column: 0 },
                }),
                Err(e) => shift(
                    ParseState {
                        lexer: lexer@,
                        current: Tok::EOF,
                        place: Place { line: 0, column: 0 },
                        declared: Seq::empty(),
                        defined: Seq::empty(),
                        strict: true,
                    },
                ) matches Err(failure) && failure.0 == e@,
            },
    {
        let mut lexer = lexer;
        let current_token = lexer.next_token()?;
        let parser = Parser {
            lexer,
            current_token,
            declared_functions: Vec::new(),
            defined_functions: Vec::new(),
            included_files: Vec::new(),
            current_dir,
            stdlib_path: None,
            suspended: Vec::new(),
            statements: Vec::new(),
            directive: (0, 0),
        };
        assert(parser@.state.declared =~= Seq::empty());
        assert(parser@.state.defined =~= Seq::empty());
        assert(parser@.included =~= Seq::empty());
        assert(parser@.suspended =~= Seq::empty());
        assert(parser@.nodes =~= Seq::empty());
        Ok(parser)
    }

    /// Configures the root of the standard library, against which the
    /// includes that start with `std/` are resolved.
    pub fn set_stdlib_path(&mut self, path: String)
        ensures
            final(self)@ == (ParserView { stdlib: Some(path@), ..old(self)@ }),
    {
        self.stdlib_path = Some(path);
    }

    /// Whether the current token is of the kind of `kind`.
    fn at(&self, kind: &TokenType) -> (r: bool)
        ensures
            r == same_kind(self@.state.current, kind@),
    {
        kind_index_of(&self.current_token.token_type) == kind_index_of(kind)
    }

    /// A syntax error with the given message at the place where the current
    /// token starts.
    fn error(&self, message: String) -> (e: CompilerError)
        ensures
            e@ == syntax_error(self@.state, message@),
    {
        self.lexer.create_error_at(
            self.current_token.line,
            self.current_token.column,
            ErrorKind::SyntaxError(message),
        )
    }

    /// Consumes the current token, which must be of the expected kind, and
    /// reads the next one.
    fn eat(&mut self, expected: TokenType) -> (r: Result<()>)
        requires
            !(expected@ is EOF),
        ensures
            match r {
                Ok(_) => eat(old(self)@.state, expected@) == Ok::<ParseState, Failure>(
                    final(self)@.state,
                ) && final(self)@ == (ParserView { state: final(self)@.state, ..old(self)@ }),
                Err(e) => eat(old(self)@.state, expected@) == Err::<ParseState, Failure>(
                    (e@, final(self)@.state),
                ) && final(self)@ == (ParserView { state: final(self)@.state, ..old(self)@ }),
            },
    {
        proof {
            lemma_eat(self@.state, expected@);
        }
        if self.at(&expected) {
            match self.lexer.next_token() {
                Ok(token) => {
                    self.current_token = token;
                    Ok(())
                },
                Err(e) => Err(e),
            }
        } else {
            Err(
                self.lexer.create_error_at(
                    self.current_token.line,
                    self.current_token.column,
                    ErrorKind::UnexpectedToken {
                        expected: expected.describe(),
                        found: self.current_token.token_type.describe(),
                    },
                ),
            )
        }
    }

    /// Consumes the current token, whatever it is, and reads the next one.
    fn advance(&mut self) -> (r: Result<()>)
        requires
            !(old(self)@.state.current is EOF),
        ensures
            match r {
                Ok(_) => eat(old(self)@.state, old(self)@.state.current) == Ok::<
                    ParseState, Failure>(final(self)@.state) && final(self)@ == (ParserView {
                    state: final(self)@.state,
                    ..old(self)@
                }),
                Err(e) => eat(old(self)@.state, old(self)@.state.current) == Err::<
                    ParseState,
                    Failure,
                >((e@, final(self)@.state)) && final(self)@ == (ParserView {
                    state: final(self)@.state,
                    ..old(self)@
                }),
            },
    {
        proof {
            lemma_eat(self@.state, self@.state.current);
        }
        match self.lexer.next_token() {
            Ok(token) => {
                self.current_token = token;
                Ok(())
            },
            Err(e) => Err(e),
        }
    }

    /// The multiplicative operator that the current token stands for.
    fn multiplicative_op(&self) -> (op: Option<BinaryOperator>)
        ensures
            op == multiplicative_operator(self@.state.current),
    {
        match &self.current_token.token_type {
            TokenType::Multiply => Some(BinaryOperator::Multiply),
            TokenType::Divide => Some(BinaryOperator::Divide),
            _ => None,
        }
    }

    /// The additive operator that the current token stands for.
    fn additive_op(&self) -> (op: Option<BinaryOperator>)
        ensures
            op == additive_operator(self@.state.current),
    {
        match &self.current_token.token_type {
            TokenType::Plus => Some(BinaryOperator::Add),
            TokenType::Minus => Some(BinaryOperator::Subtract),
            _ => None,
        }
    }

    /// The comparison operator that the current token stands for.
    fn comparison_op(&self) -> (op: Option<BinaryOperator>)
        ensures
            op == comparison_operator(self@.state.current),
    {
        match &self.current_token.token_type {
            TokenType::Equals => Some(BinaryOperator::Equals),
            TokenType::NotEquals => Some(BinaryOperator::NotEquals),
            TokenType::Less => Some(BinaryOperator::Less),
            TokenType::Greater => Some(BinaryOperator::Greater),
            TokenType::LessEqual => Some(BinaryOperator::LessEqual),
            TokenType::GreaterEqual => Some(BinaryOperator::GreaterEqual),
            _ => None,
        }
    }

    /// The logical operator that the current token stands for.
    fn logical_op(&self) -> (op: Option<BinaryOperator>)
        ensures
            op == logical_operator(self@.state.current),
    {
        match &self.current_token.token_type {
            TokenType::And => Some(BinaryOperator::And),
            TokenType::Or => Some(BinaryOperator::Or),
            _ => None,
        }
    }

    /// `primary := NUMBER | STRING | IDENT ( '[' expr ']' )? | IDENT '(' args ')' | '(' expr ')'`
    #[verifier::rlimit(80)]
    fn parse_primary(&mut self) -> (r: Result<AstNode>)
        ensures
            parsed_as(r, parse_primary(old(self)@.state), old(self)@, final(self)@),
        decreases measure(old(self)@.state), 0nat, 1nat,
    {
        match &self.current_token.token_type {
            TokenType::Number(n) => {
                proof {
                    reveal(parse_primary);
                }
                let value = *n;
                self.advance()?;
                Ok(AstNode::Number(value))
            },
            TokenType::StringLiteral(s) => {
                proof {
                    reveal(parse_primary);
                }
                let value = s.clone();
                self.advance()?;
                Ok(AstNode::StringLiteral(value))
            },
            TokenType::Identifier(name) => {
                let name = name.clone();
                self.parse_named(name)
            },
            TokenType::LParen => self.parse_group(),
            _ => {
                proof {
                    reveal(parse_primary);
                }
                let mut message = String::from_str("unexpected token in expression: ");
                message.append(self.current_token.token_type.describe().as_str());
                Err(self.error(message))
            },
        }
    }

    /// A primary expression that starts with the identifier `name`: a
    /// variable, an indexed array, or a call.
    #[verifier::rlimit(80)]
    fn parse_named(&mut self, name: String) -> (r: Result<AstNode>)
        requires
            old(self)@.state.current == Tok::Identifier(name@),
        ensures
            parsed_as(r, parse_primary(old(self)@.state), old(self)@, final(self)@),
        decreases measure(old(self)@.state), 0nat, 0nat,
    {
        proof {
            reveal(parse_primary);
            reveal(parse_expression);
            reveal(parse_function_call);
        }
        self.advance()?;
        if self.at(&TokenType::LeftBracket) {
            self.eat(TokenType::LeftBracket)?;
            let index = self.parse_expression()?;
            self.eat(TokenType::RightBracket)?;
            let array = AstNode::Variable(name);
            assert(array@ == Ast::Variable(name@));
            Ok(AstNode::ArrayIndex(Box::new(array), Box::new(index)))
        } else if self.at(&TokenType::LParen) {
            self.parse_function_call(name)
        } else {
            Ok(AstNode::Variable(name))
        }
    }

    /// A primary expression in parentheses.
    #[verifier::rlimit(80)]
    fn parse_group(&mut self) -> (r: Result<AstNode>)
        requires
            old(self)@.state.current is LParen,
        ensures
            parsed_as(r, parse_primary(old(self)@.state), old(self)@, final(self)@),
        decreases measure(old(self)@.state), 0nat, 0nat,
    {
        proof {
            reveal(parse_primary);
            reveal(parse_expression);
        }
        self.eat(TokenType::LParen)?;
        let expr = self.parse_expression()?;
        self.eat(TokenType::RParen)?;
        Ok(expr)
    }

    /// A call of `name`, from its opening parenthesis.
    #[verifier::rlimit(80)]
    fn parse_function_call(&mut self, name: String) -> (r: Result<AstNode>)
        ensures
            parsed_as(r, parse_function_call(old(self)@.state, name@), old(self)@, final(self)@),
        decreases measure(old(self)@.state), 0nat,
    {
        proof {
            reveal(parse_function_call);
            reveal(parse_expression);
            reveal(parse_arguments);
        }
        if !self.is_function_declared(name.as_str()) {
            let mut message = String::from_str("call to undeclared function '");
            message.append(name.as_str());
            message.append("'");
            return Err(self.error(message));
        }
        self.eat(TokenType::LParen)?;
        let mut arguments: Vec<AstNode> = Vec::new();
        assert(asts(arguments@) =~= Seq::empty());
        if !self.at(&TokenType::RParen) {
            let first = self.parse_expression()?;
            arguments.push(first);
            assert(asts(arguments@) =~= seq![first@]);
            arguments = self.parse_arguments(arguments)?;
        }
        self.eat(TokenType::RParen)?;
        let node = AstNode::FunctionCall(name, arguments);
        proof {
            crate::ast::lemma_children(node);
        }
        Ok(node)
    }

    /// The arguments after the first, added to `arguments`.
    #[verifier::rlimit(80)]
    fn parse_arguments(&mut self, arguments: Vec<AstNode>) -> (r: Result<Vec<AstNode>>)
        ensures
            listed_as(
                r,
                parse_arguments(old(self)@.state, asts(arguments@)),
                old(self)@,
                final(self)@,
            ),
        decreases measure(old(self)@.state), 0nat,
    {
        let mut list = arguments;
        loop
            invariant_except_break
                parse_arguments(self@.state, asts(list@)) == parse_arguments(
                    old(self)@.state,
                    asts(arguments@),
                ),
            invariant
                self@ == (ParserView { state: self@.state, ..old(self)@ }),
                measure(self@.state) <= measure(old(self)@.state),
            ensures
                parse_arguments(old(self)@.state, asts(arguments@)) == Ok::<
                    (Seq<Ast>, ParseState), Failure>((asts(list@), self@.state)),
            decreases measure(self@.state),
        {
            proof {
                reveal(parse_arguments);
                reveal(parse_expression);
            }
            if !self.at(&TokenType::Comma) {
                break ;
            }
            self.eat(TokenType::Comma)?;
            let argument = self.parse_expression()?;
            proof {
                assert(asts(list@.push(argument)) =~= asts(list@).push(argument@));
            }
            list.push(argument);
        }
        Ok(list)
    }

    /// Whether a function of this name was declared.
    fn is_function_declared(&self, name: &str) -> (r: bool)
        ensures
            r == (position(self@.state.declared, name@) < self@.state.declared.len()),
    {
        find(&self.declared_functions, name) < self.declared_functions.len()
    }

    /// Whether a function of this name was defined.
    fn is_function_defined(&self, name: &str) -> (r: bool)
        ensures
            r == (position(self@.state.defined, name@) < self@.state.defined.len()),
    {
        find(&self.defined_functions, name) < self.defined_functions.len()
    }

    /// `multiplicative := primary ( ('*'|'/') primary )*`
    #[verifier::rlimit(80)]
    fn parse_multiplicative(&mut self) -> (r: Result<AstNode>)
        ensures
            parsed_as(r, parse_multiplicative(old(self)@.state), old(self)@, final(self)@),
        decreases measure(old(self)@.state), 2nat,
    {
        proof {
            reveal(parse_multiplicative);
            reveal(parse_primary);
            reveal(parse_multiplicative_rest);
        }
        let left = self.parse_primary()?;
        self.parse_multiplicative_rest(left)
    }

    /// The operators of this level and their operands, after the operand `left`.
    #[verifier::rlimit(80)]
    fn parse_multiplicative_rest(&mut self, left: AstNode) -> (r: Result<AstNode>)
        ensures
            continued_as(
                r,
                parse_multiplicative_rest(old(self)@.state, left@),
                old(self)@,
                final(self)@,
            ),
        decreases measure(old(self)@.state), 1nat,
    {
        let mut expr = left;
        loop
            invariant_except_break
                parse_multiplicative_rest(self@.state, expr@) == parse_multiplicative_rest(
                    old(self)@.state,
                    left@,
                ),
            invariant
                self@ == (ParserView { state: self@.state, ..old(self)@ }),
                measure(self@.state) <= measure(old(self)@.state),
            ensures
                parse_multiplicative_rest(old(self)@.state, left@) == Ok::<(Ast, ParseState), Failure>(
                    (expr@, self@.state),
                ),
            decreases measure(self@.state),
        {
            proof {
                reveal(parse_multiplicative_rest);
                reveal(parse_primary);
            }
            let op = match self.multiplicative_op() {
                Some(op) => op,
                None => {
                    break ;
                },
            };
            self.advance()?;
            let right = self.parse_primary()?;
            expr = AstNode::BinaryOp(Box::new(expr), op, Box::new(right));
        }
        Ok(expr)
    }

    /// `additive := multiplicative ( ('+'|'-') multiplicative )*`
    #[verifier::rlimit(80)]
    fn parse_additive(&mut self) -> (r: Result<AstNode>)
        ensures
            parsed_as(r, parse_additive(old(self)@.state), old(self)@, final(self)@),
        decreases measure(old(self)@.state), 4nat,
    {
        proof {
            reveal(parse_additive);
            reveal(parse_multiplicative);
            reveal(parse_additive_rest);
        }
        let left = self.parse_multiplicative()?;
        self.parse_additive_rest(left)
    }

    /// The operators of this level and their operands, after the operand `left`.
    #[verifier::rlimit(80)]
    fn parse_additive_rest(&mut self, left: AstNode) -> (r: Result<AstNode>)
        ensures
            continued_as(
                r,
                parse_additive_rest(old(self)@.state, left@),
                old(self)@,
                final(self)@,
            ),
        decreases measure(old(self)@.state), 3nat,
    {
        let mut expr = left;
        loop
            invariant_except_break
                parse_additive_rest(self@.state, expr@) == parse_additive_rest(
                    old(self)@.state,
                    left@,
                ),
            invariant
                self@ == (ParserView { state: self@.state, ..old(self)@ }),
                measure(self@.state) <= measure(old(self)@.state),
            ensures
                parse_additive_rest(old(self)@.state, left@) == Ok::<(Ast, ParseState), Failure>(
                    (expr@, self@.state),
                ),
            decreases measure(self@.state),
        {
            proof {
                reveal(parse_additive_rest);
                reveal(parse_multiplicative);
            }
            let op = match self.additive_op() {
                Some(op) => op,
                None => {
                    break ;
                },
            };
            self.advance()?;
            let right = self.parse_multiplicative()?;
            expr = AstNode::BinaryOp(Box::new(expr), op, Box::new(right));
        }
        Ok(expr)
    }

    /// `comparison := additive ( ('=='|'!='|'<'|'>'|'<='|'>=') additive )*`
    #[verifier::rlimit(80)]
    fn parse_comparison(&mut self) -> (r: Result<AstNode>)
        ensures
            parsed_as(r, parse_comparison(old(self)@.state), old(self)@, final(self)@),
        decreases measure(old(self)@.state), 6nat,
    {
        proof {
            reveal(parse_comparison);
            reveal(parse_additive);
            reveal(parse_comparison_rest);
        }
        let left = self.parse_additive()?;
        self.parse_comparison_rest(left)
    }

    /// The operators of this level and their operands, after the operand `left`.
    #[verifier::rlimit(80)]
    fn parse_comparison_rest(&mut self, left: AstNode) -> (r: Result<AstNode>)
        ensures
            continued_as(
                r,
                parse_comparison_rest(old(self)@.state, left@),
                old(self)@,
                final(self)@,
            ),
        decreases measure(old(self)@.state), 5nat,
    {
        let mut expr = left;
        loop
            invariant_except_break
                parse_comparison_rest(self@.state, expr@) == parse_comparison_rest(
                    old(self)@.state,
                    left@,
                ),
            invariant
                self@ == (ParserView { state: self@.state, ..old(self)@ }),
                measure(self@.state) <= measure(old(self)@.state),
            ensures
                parse_comparison_rest(old(self)@.state, left@) == Ok::<(Ast, ParseState), Failure>(
                    (expr@, self@.state),
                ),
            decreases measure(self@.state),
        {
            proof {
                reveal(parse_comparison_rest);
                reveal(parse_additive);
            }
            let op = match self.comparison_op() {
                Some(op) => op,
                None => {
                    break ;
                },
            };
            self.advance()?;
            let right = self.parse_additive()?;
            expr = AstNode::BinaryOp(Box::new(expr), op, Box::new(right));
        }
        Ok(expr)
    }

    /// `logical := comparison ( ('&&'|'||') comparison )*`
    #[verifier::rlimit(80)]
    fn parse_logical(&mut self) -> (r: Result<AstNode>)
        ensures
            parsed_as(r, parse_logical(old(self)@.state), old(self)@, final(self)@),
        decreases measure(old(self)@.state), 8nat,
    {
        proof {
            reveal(parse_logical);
            reveal(parse_comparison);
            reveal(parse_logical_rest);
        }
        let left = self.parse_comparison()?;
        self.parse_logical_rest(left)
    }

    /// The operators of this level and their operands, after the operand `left`.
    #[verifier::rlimit(80)]
    fn parse_logical_rest(&mut self, left: AstNode) -> (r: Result<AstNode>)
        ensures
            continued_as(
                r,
                parse_logical_rest(old(self)@.state, left@),
                old(self)@,
                final(self)@,
            ),
        decreases measure(old(self)@.state), 7nat,
    {
        let mut expr = left;
        loop
            invariant_except_break
                parse_logical_rest(self@.state, expr@) == parse_logical_rest(
                    old(self)@.state,
                    left@,
                ),
            invariant
                self@ == (ParserView { state: self@.state, ..old(self)@ }),
                measure(self@.state) <= measure(old(self)@.state),
            ensures
                parse_logical_rest(old(self)@.state, left@) == Ok::<(Ast, ParseState), Failure>(
                    (expr@, self@.state),
                ),
            decreases measure(self@.state),
        {
            proof {
                reveal(parse_logical_rest);
                reveal(parse_comparison);
            }
            let op = match self.logical_op() {
                Some(op) => op,
                None => {
                    break ;
                },
            };
            self.advance()?;
            let right = self.parse_comparison()?;
            expr = AstNode::BinaryOp(Box::new(expr), op, Box::new(right));
        }
        Ok(expr)
    }

    /// `assignment := logical ( '=' assignment )?`
    #[verifier::rlimit(80)]
    fn parse_assignment(&mut self) -> (r: Result<AstNode>)
        ensures
            parsed_as(r, parse_assignment(old(self)@.state), old(self)@, final(self)@),
        decreases measure(old(self)@.state), 9nat,
    {
        proof {
            reveal(parse_assignment);
            reveal(parse_logical);
        }
        let expr = self.parse_logical()?;
        proof {
            crate::ast::lemma_target(expr);
        }
        if self.at(&TokenType::Assign) {
            match expr {
                AstNode::Variable(name) => {
                    self.eat(TokenType::Assign)?;
                    let value = self.parse_assignment()?;
                    Ok(AstNode::Assignment(name, Box::new(value)))
                },
                AstNode::ArrayIndex(array, index) => {
                    self.eat(TokenType::Assign)?;
                    let value = self.parse_assignment()?;
                    Ok(AstNode::ArrayAssignment(array, index, Box::new(value)))
                },
                _ => Err(self.error(String::from_str("invalid assignment target"))),
            }
        } else {
            Ok(expr)
        }
    }

    /// `expression := assignment`
    #[verifier::rlimit(80)]
    fn parse_expression(&mut self) -> (r: Result<AstNode>)
        ensures
            parsed_as(r, parse_expression(old(self)@.state), old(self)@, final(self)@),
        decreases measure(old(self)@.state), 10nat,
    {
        proof {
            reveal(parse_expression);
            reveal(parse_assignment);
        }
        self.parse_assignment()
    }

    /// `statement := funcDecl | return | if | while | block | asm | expression ';'`
    #[verifier::rlimit(80)]
    fn parse_statement(&mut self) -> (r: Result<AstNode>)
        ensures
            parsed_as(r, parse_statement(old(self)@.state), old(self)@, final(self)@),
        decreases measure(old(self)@.state), 12nat,
    {
        match &self.current_token.token_type {
            TokenType::Function => {
                proof {
                    reveal(parse_statement);
                    reveal(parse_function_declaration);
                }
                self.parse_function_declaration()
            },
            TokenType::Return => {
                proof {
                    reveal(parse_statement);
                    reveal(parse_return_statement);
                }
                self.parse_return_statement()
            },
            TokenType::If => {
                proof {
                    reveal(parse_statement);
                    reveal(parse_if_statement);
                }
                self.parse_if_statement()
            },
            TokenType::While => {
                proof {
                    reveal(parse_statement);
                    reveal(parse_while_statement);
                }
                self.parse_while_statement()
            },
            TokenType::LBrace => {
                proof {
                    reveal(parse_statement);
                    reveal(parse_block);
                }
                self.parse_block()
            },
            TokenType::Asm => {
                proof {
                    reveal(parse_statement);
                }
                self.parse_inline_asm()
            },
            _ => {
                proof {
                    reveal(parse_statement);
                    reveal(parse_expression);
                }
                let expr = self.parse_expression()?;
                self.eat(TokenType::Semicolon)?;
                Ok(expr)
            },
        }
    }

    /// `if '(' expr ')' statement ( else statement )?`
    #[verifier::rlimit(80)]
    fn parse_if_statement(&mut self) -> (r: Result<AstNode>)
        ensures
            parsed_as(r, parse_if_statement(old(self)@.state), old(self)@, final(self)@),
        decreases measure(old(self)@.state), 11nat,
    {
        proof {
            reveal(parse_if_statement);
            reveal(parse_expression);
            reveal(parse_statement);
        }
        self.eat(TokenType::If)?;
        self.eat(TokenType::LParen)?;
        let condition = self.parse_expression()?;
        self.eat(TokenType::RParen)?;
        let then_branch = self.parse_statement()?;
        if self.at(&TokenType::Else) {
            self.eat(TokenType::Else)?;
            let else_branch = self.parse_statement()?;
            Ok(AstNode::If(Box::new(condition), Box::new(then_branch), Some(Box::new(else_branch))))
        } else {
            Ok(AstNode::If(Box::new(condition), Box::new(then_branch), None))
        }
    }

    /// `while '(' expr ')' statement`
    #[verifier::rlimit(80)]
    fn parse_while_statement(&mut self) -> (r: Result<AstNode>)
        ensures
            parsed_as(r, parse_while_statement(old(self)@.state), old(self)@, final(self)@),
        decreases measure(old(self)@.state), 11nat,
    {
        proof {
            reveal(parse_while_statement);
            reveal(parse_expression);
            reveal(parse_statement);
        }
        self.eat(TokenType::While)?;
        self.eat(TokenType::LParen)?;
        let condition = self.parse_expression()?;
        self.eat(TokenType::RParen)?;
        let body = self.parse_statement()?;
        Ok(AstNode::While(Box::new(condition), Box::new(body)))
    }

    /// `'{' statement* '}'`
    #[verifier::rlimit(80)]
    fn parse_block(&mut self) -> (r: Result<AstNode>)
        ensures
            parsed_as(r, parse_block(old(self)@.state), old(self)@, final(self)@),
        decreases measure(old(self)@.state), 11nat,
    {
        proof {
            reveal(parse_block);
            reveal(parse_block_items);
        }
        self.eat(TokenType::LBrace)?;
        let statements: Vec<AstNode> = Vec::new();
        assert(asts(statements@) =~= Seq::empty());
        let statements = self.parse_block_items(statements)?;
        self.eat(TokenType::RBrace)?;
        let node = AstNode::Block(statements);
        proof {
            crate::ast::lemma_children(node);
        }
        Ok(node)
    }

    /// The statements of a block up to its closing brace, added to `statements`.
    #[verifier::rlimit(80)]
    fn parse_block_items(&mut self, statements: Vec<AstNode>) -> (r: Result<Vec<AstNode>>)
        ensures
            listed_as(
                r,
                parse_block_items(old(self)@.state, asts(statements@)),
                old(self)@,
                final(self)@,
            ),
        decreases measure(old(self)@.state), 13nat,
    {
        let mut list = statements;
        loop
            invariant_except_break
                parse_block_items(self@.state, asts(list@)) == parse_block_items(
                    old(self)@.state,
                    asts(statements@),
                ),
            invariant
                self@ == (ParserView { state: self@.state, ..old(self)@ }),
                measure(self@.state) <= measure(old(self)@.state),
            ensures
                parse_block_items(old(self)@.state, asts(statements@)) == Ok::<
                    (Seq<Ast>, ParseState), Failure>((asts(list@), self@.state)),
            decreases measure(self@.state),
        {
            proof {
                reveal(parse_block_items);
                reveal(parse_statement);
            }
            if self.at(&TokenType::RBrace) {
                break ;
            }
            let statement = self.parse_statement()?;
            proof {
                assert(asts(list@.push(statement)) =~= asts(list@).push(statement@));
            }
            list.push(statement);
        }
        Ok(list)
    }

    /// `return expr? ';'`
    #[verifier::rlimit(80)]
    fn parse_return_statement(&mut self) -> (r: Result<AstNode>)
        ensures
            parsed_as(r, parse_return_statement(old(self)@.state), old(self)@, final(self)@),
        decreases measure(old(self)@.state), 11nat,
    {
        proof {
            reveal(parse_return_statement);
            reveal(parse_expression);
        }
        self.eat(TokenType::Return)?;
        let value = if !self.at(&TokenType::Semicolon) {
            Some(Box::new(self.parse_expression()?))
        } else {
            None
        };
        self.eat(TokenType::Semicolon)?;
        Ok(AstNode::Return(value))
    }

    /// Records that a function of this name is declared.
    fn declare(&mut self, name: &str)
        ensures
            final(self)@ == (ParserView {
                state: ParseState {
                    declared: intern(old(self)@.state.declared, name@),
                    ..old(self)@.state
                },
                ..old(self)@
            }),
    {
        if find(&self.declared_functions, name) == self.declared_functions.len() {
            let owned = name.to_owned();
            proof {
                lemma_texts_push(self.declared_functions@, owned);
            }
            self.declared_functions.push(owned);
        }
    }

    /// Records that a function of this name is defined.
    fn define(&mut self, name: &str)
        ensures
            final(self)@ == (ParserView {
                state: ParseState {
                    defined: intern(old(self)@.state.defined, name@),
                    ..old(self)@.state
                },
                ..old(self)@
            }),
    {
        if find(&self.defined_functions, name) == self.defined_functions.len() {
            let owned = name.to_owned();
            proof {
                lemma_texts_push(self.defined_functions@, owned);
            }
            self.defined_functions.push(owned);
        }
    }

    /// The parameters of a function.
    #[verifier::rlimit(80)]
    fn parse_parameters(&mut self) -> (r: Result<Vec<String>>)
        ensures
            stepped(
                match r {
                    Ok(list) => Ok(texts(list@)),
                    Err(e) => Err(e@),
                },
                parse_parameters(old(self)@.state),
                old(self)@,
                final(self)@,
            ),
    {
        proof {
            reveal(parse_parameters);
        }
        let mut parameters: Vec<String> = Vec::new();
        let first = match &self.current_token.token_type {
            TokenType::Identifier(name) => name.clone(),
            _ => {
                assert(texts(parameters@) =~= Seq::empty());
                return Ok(parameters);
            },
        };
        self.advance()?;
        parameters.push(first);
        assert(texts(parameters@) =~= seq![first@]);
        let ghost start = self@.state;
        loop
            invariant_except_break
                parse_more_parameters(self@.state, texts(parameters@)) == parse_more_parameters(
                    start,
                    seq![first@],
                ),
            invariant
                self@ == (ParserView { state: self@.state, ..old(self)@ }),
                measure(self@.state) <= measure(old(self)@.state),
                parse_parameters(old(self)@.state) == parse_more_parameters(start, seq![first@]),
            ensures
                parse_more_parameters(start, seq![first@]) == Ok::<
                    (Seq<Seq<char>>, ParseState), Failure>((texts(parameters@), self@.state)),
            decreases measure(self@.state),
        {
            proof {
                reveal(parse_more_parameters);
            }
            if !self.at(&TokenType::Comma) {
                break ;
            }
            self.eat(TokenType::Comma)?;
            let next = match &self.current_token.token_type {
                TokenType::Identifier(name) => Some(name.clone()),
                _ => None,
            };
            match next {
                Some(name) => {
                    self.advance()?;
                    proof {
                        lemma_texts_push(parameters@, name);
                    }
                    parameters.push(name);
                },
                None => {},
            }
        }
        Ok(parameters)
    }

    /// `fn NAME '(' params ')' ';'` or `fn NAME '(' params ')' block`
    #[verifier::rlimit(80)]
    fn parse_function_declaration(&mut self) -> (r: Result<AstNode>)
        ensures
            parsed_as(r, parse_function_declaration(old(self)@.state), old(self)@, final(self)@),
        decreases measure(old(self)@.state), 11nat,
    {
        proof {
            reveal(parse_function_declaration);
            reveal(parse_block);
        }
        self.eat(TokenType::Function)?;
        let name = match &self.current_token.token_type {
            TokenType::Identifier(name) => name.clone(),
            _ => {
                return Err(self.error(String::from_str("expected function name")));
            },
        };
        self.advance()?;
        self.eat(TokenType::LParen)?;
        let parameters = self.parse_parameters()?;
        self.eat(TokenType::RParen)?;
        if self.at(&TokenType::Semicolon) {
            self.eat(TokenType::Semicolon)?;
            self.declare(name.as_str());
            return Ok(AstNode::FunctionPredecl(name, parameters));
        }
        if self.is_function_defined(name.as_str()) {
            let mut message = String::from_str("function '");
            message.append(name.as_str());
            message.append("' is already defined");
            return Err(self.error(message));
        }
        let body = self.parse_block()?;
        self.define(name.as_str());
        self.declare(name.as_str());
        Ok(AstNode::FunctionDecl(name, parameters, Box::new(body)))
    }

    /// Lets the scanner pass over whitespace and comments.
    fn skip(&mut self)
        ensures
            final(self)@ == (ParserView { state: skip(old(self)@.state), ..old(self)@ }),
            measure(final(self)@.state) <= measure(old(self)@.state),
    {
        proof {
            lemma_skip(self@.state);
        }
        self.lexer.skip_whitespace_and_comments();
    }

    /// A string literal, or the error with the given message.
    #[verifier::rlimit(80)]
    fn parse_string(&mut self, message: &str) -> (r: Result<String>)
        ensures
            stepped(
                match r {
                    Ok(text) => Ok(text@),
                    Err(e) => Err(e@),
                },
                parse_string(old(self)@.state, message@),
                old(self)@,
                final(self)@,
            ),
            r is Ok ==> measure(final(self)@.state) < measure(old(self)@.state),
    {
        proof {
            reveal(parse_string);
        }
        let text = match &self.current_token.token_type {
            TokenType::StringLiteral(text) => text.clone(),
            _ => {
                return Err(self.error(message.to_owned()));
            },
        };
        self.advance()?;
        Ok(text)
    }

    /// An identifier, or the error with the given message.
    #[verifier::rlimit(80)]
    fn parse_name(&mut self, message: &str) -> (r: Result<String>)
        ensures
            stepped(
                match r {
                    Ok(text) => Ok(text@),
                    Err(e) => Err(e@),
                },
                parse_name(old(self)@.state, message@),
                old(self)@,
                final(self)@,
            ),
            r is Ok ==> measure(final(self)@.state) < measure(old(self)@.state),
    {
        proof {
            reveal(parse_name);
        }
        let name = match &self.current_token.token_type {
            TokenType::Identifier(name) => name.clone(),
            _ => {
                return Err(self.error(message.to_owned()));
            },
        };
        self.advance()?;
        Ok(name)
    }

    /// One operand of an inline assembly block.
    #[verifier::rlimit(80)]
    fn parse_operand(&mut self, first: bool, message: &str) -> (r: Result<(String, String)>)
        ensures
            stepped(
                match r {
                    Ok(operand) => Ok((operand.0@, operand.1@)),
                    Err(e) => Err(e@),
                },
                parse_operand(old(self)@.state, first, message@),
                old(self)@,
                final(self)@,
            ),
            r is Ok ==> measure(final(self)@.state) < measure(old(self)@.state),
    {
        proof {
            reveal(parse_operand);
        }
        if !first {
            self.eat(TokenType::Comma)?;
        }
        let constraint = self.parse_string("expected string literal for constraint")?;
        self.eat(TokenType::LeftBracket)?;
        let name = self.parse_name(message)?;
        self.eat(TokenType::RightBracket)?;
        self.skip();
        Ok((constraint, name))
    }

    /// The operands of one section, up to the next colon or the semicolon.
    #[verifier::rlimit(80)]
    fn parse_operands(&mut self, message: &str) -> (r: Result<Vec<(String, String)>>)
        ensures
            stepped(
                match r {
                    Ok(list) => Ok(text_pairs(list@)),
                    Err(e) => Err(e@),
                },
                parse_operands(old(self)@.state, Seq::empty(), message@),
                old(self)@,
                final(self)@,
            ),
    {
        let mut operands: Vec<(String, String)> = Vec::new();
        assert(text_pairs(operands@) =~= Seq::empty());
        loop
            invariant_except_break
                parse_operands(self@.state, text_pairs(operands@), message@) == parse_operands(
                    old(self)@.state,
                    Seq::empty(),
                    message@,
                ),
            invariant
                self@ == (ParserView { state: self@.state, ..old(self)@ }),
                measure(self@.state) <= measure(old(self)@.state),
            ensures
                parse_operands(old(self)@.state, Seq::empty(), message@) == Ok::<
                    (Seq<(Seq<char>, Seq<char>)>, ParseState),
                    Failure,
                >((text_pairs(operands@), self@.state)),
            decreases measure(self@.state),
        {
            proof {
                reveal(parse_operands);
            }
            if self.at(&TokenType::Colon) || self.at(&TokenType::Semicolon) {
                break ;
            }
            let operand = self.parse_operand(operands.len() == 0, message)?;
            proof {
                assert(text_pairs(operands@.push(operand)) =~= text_pairs(operands@).push(
                    (operand.0@, operand.1@),
                ));
            }
            operands.push(operand);
        }
        Ok(operands)
    }

    /// One clobber of an inline assembly block.
    #[verifier::rlimit(80)]
    fn parse_clobber(&mut self, first: bool) -> (r: Result<String>)
        ensures
            stepped(
                match r {
                    Ok(text) => Ok(text@),
                    Err(e) => Err(e@),
                },
                parse_clobber(old(self)@.state, first),
                old(self)@,
                final(self)@,
            ),
            r is Ok ==> measure(final(self)@.state) < measure(old(self)@.state),
    {
        proof {
            reveal(parse_clobber);
        }
        if !first {
            self.eat(TokenType::Comma)?;
        }
        let clobber = self.parse_string("expected string literal for clobber")?;
        self.skip();
        Ok(clobber)
    }

    /// The clobbers, up to the semicolon.
    #[verifier::rlimit(80)]
    fn parse_clobbers(&mut self) -> (r: Result<Vec<String>>)
        ensures
            stepped(
                match r {
                    Ok(list) => Ok(texts(list@)),
                    Err(e) => Err(e@),
                },
                parse_clobbers(old(self)@.state, Seq::empty()),
                old(self)@,
                final(self)@,
            ),
    {
        let mut clobbers: Vec<String> = Vec::new();
        assert(texts(clobbers@) =~= Seq::empty());
        loop
            invariant_except_break
                parse_clobbers(self@.state, texts(clobbers@)) == parse_clobbers(
                    old(self)@.state,
                    Seq::empty(),
                ),
            invariant
                self@ == (ParserView { state: self@.state, ..old(self)@ }),
                measure(self@.state) <= measure(old(self)@.state),
            ensures
                parse_clobbers(old(self)@.state, Seq::empty()) == Ok::<
                    (Seq<Seq<char>>, ParseState), Failure>((texts(clobbers@), self@.state)),
            decreases measure(self@.state),
        {
            proof {
                reveal(parse_clobbers);
            }
            if self.at(&TokenType::Semicolon) {
                break ;
            }
            let clobber = self.parse_clobber(clobbers.len() == 0)?;
            proof {
                lemma_texts_push(clobbers@, clobber);
            }
            clobbers.push(clobber);
        }
        Ok(clobbers)
    }

    /// A section of operands that a colon opens, or no operands where none does.
    #[verifier::rlimit(80)]
    fn parse_section(&mut self, message: &str) -> (r: Result<Vec<(String, String)>>)
        ensures
            stepped(
                match r {
                    Ok(list) => Ok(text_pairs(list@)),
                    Err(e) => Err(e@),
                },
                parse_section(old(self)@.state, message@),
                old(self)@,
                final(self)@,
            ),
    {
        proof {
            reveal(parse_section);
        }
        if self.at(&TokenType::Colon) {
            self.eat(TokenType::Colon)?;
            self.parse_operands(message)
        } else {
            let operands: Vec<(String, String)> = Vec::new();
            assert(text_pairs(operands@) =~= Seq::empty());
            Ok(operands)
        }
    }

    /// The section of clobbers that a colon opens, or no clobbers where none does.
    #[verifier::rlimit(80)]
    fn parse_clobber_section(&mut self) -> (r: Result<Vec<String>>)
        ensures
            stepped(
                match r {
                    Ok(list) => Ok(texts(list@)),
                    Err(e) => Err(e@),
                },
                parse_clobber_section(old(self)@.state),
                old(self)@,
                final(self)@,
            ),
    {
        proof {
            reveal(parse_clobber_section);
        }
        if self.at(&TokenType::Colon) {
            self.eat(TokenType::Colon)?;
            self.parse_clobbers()
        } else {
            let clobbers: Vec<String> = Vec::new();
            assert(texts(clobbers@) =~= Seq::empty());
            Ok(clobbers)
        }
    }

    /// `asm "template" ( ':' outputs ( ':' inputs ( ':' clobbers )? )? )? ';'`
    #[verifier::rlimit(80)]
    fn parse_inline_asm(&mut self) -> (r: Result<AstNode>)
        ensures
            parsed_as(r, parse_inline_asm(old(self)@.state), old(self)@, final(self)@),
    {
        proof {
            reveal(parse_inline_asm);
        }
        self.eat(TokenType::Asm)?;
        self.skip();
        let template = self.parse_string("expected string literal for asm template")?;
        self.skip();
        let mut outputs: Vec<(String, String)> = Vec::new();
        let mut inputs: Vec<(String, String)> = Vec::new();
        let mut clobbers: Vec<String> = Vec::new();
        assert(text_pairs(outputs@) =~= Seq::empty());
        assert(text_pairs(inputs@) =~= Seq::empty());
        assert(texts(clobbers@) =~= Seq::empty());
        if self.at(&TokenType::Colon) {
            outputs = self.parse_section("expected identifier for output operand")?;
            inputs = self.parse_section("expected identifier for input operand")?;
            clobbers = self.parse_clobber_section()?;
        }
        self.eat(TokenType::Semicolon)?;
        Ok(AstNode::InlineAsm { template, outputs, inputs, clobbers })
    }

    /// `@include STRING ';'`: the path that the directive names.
    #[verifier::rlimit(80)]
    fn parse_include(&mut self) -> (r: Result<String>)
        ensures
            stepped(
                match r {
                    Ok(path) => Ok(path@),
                    Err(e) => Err(e@),
                },
                parse_include(old(self)@.state),
                old(self)@,
                final(self)@,
            ),
    {
        proof {
            reveal(parse_include);
        }
        self.eat(TokenType::Include)?;
        let path = self.parse_string("expected string literal after @include")?;
        self.eat(TokenType::Semicolon)?;
        Ok(path)
    }

    /// Where the file of an include is looked for.
    fn request(&self, path: String) -> (r: IncludeRequest)
        ensures
            r@ == request(self@, path@),
    {
        let chars = chars_of(path.as_str());
        if chars.len() >= 4 && chars[0] == 's' && chars[1] == 't' && chars[2] == 'd' && chars[3]
            == '/' {
            let mut rest = String::new();
            push_chars(&mut rest, &chars, 4, chars.len());
            assert(rest@ =~= path@.subrange(4, path@.len() as int));
            IncludeRequest { path: rest, std: true, base: self.stdlib_path.clone() }
        } else {
            IncludeRequest { path, std: false, base: Some(self.current_dir.clone()) }
        }
    }

    /// The first function that is declared and not defined.
    fn find_undefined(&self) -> (r: Option<String>)
        ensures
            match r {
                Some(name) => first_undefined(self@.state.declared, self@.state.defined, 0)
                    == Some(name@),
                None => first_undefined(self@.state.declared, self@.state.defined, 0) is None,
            },
    {
        let mut i: usize = 0;
        while i < self.declared_functions.len()
            invariant
                i <= self.declared_functions.len(),
                first_undefined(self@.state.declared, self@.state.defined, i as nat)
                    == first_undefined(self@.state.declared, self@.state.defined, 0),
            decreases self.declared_functions.len() - i,
        {
            let name = &self.declared_functions[i];
            if find(&self.defined_functions, name.as_str()) == self.defined_functions.len() {
                return Some(name.clone());
            }
            i += 1;
        }
        None
    }

    /// Goes back to the file that included the one which has ended.
    fn resume(&mut self)
        requires
            old(self)@.suspended.len() > 0,
        ensures
            final(self)@ == resume(old(self)@),
    {
        let frame = self.suspended.pop().unwrap();
        let Frame { lexer, current_token, current_dir } = frame;
        self.lexer = lexer;
        self.current_token = current_token;
        self.current_dir = current_dir;
        assert(self@.suspended =~= old(self)@.suspended.drop_last());
    }

    /// Parses up to the next include or to the end of the translation unit.
    ///
    /// On `Include`, the directive has been consumed: hand the file over
    /// with `register_include` and `enter_include` and call again. On `Done`,
    /// every file has been parsed to its end, and every declared function is
    /// defined. On an error, the parser stands where the error arose: what
    /// was parsed before it stays parsed, and the error points to the start
    /// of the offending token.
    pub fn parse_program(&mut self) -> (r: Result<ParseStep>)
        ensures
            match r {
                Ok(step) => run(old(self)@) == Ok::<(Step, ParserView), (SpecError, ParserView)>(
                    (step@, final(self)@),
                ),
                Err(e) => run(old(self)@) == Err::<(Step, ParserView), (SpecError, ParserView)>(
                    (e@, final(self)@),
                ),
            },
    {
        loop
            invariant
                run(self@) == run(old(self)@),
            decreases self@.suspended.len(), measure(self@.state),
        {
            proof {
                reveal(run);
            }
            if self.at(&TokenType::EOF) {
                if self.suspended.len() > 0 {
                    self.resume();
                } else {
                    match self.find_undefined() {
                        Some(name) => {
                            let mut message = String::from_str("function '");
                            message.append(name.as_str());
                            message.append("' declared but not defined");
                            return Err(self.error(message));
                        },
                        None => {
                            let mut nodes: Vec<AstNode> = Vec::new();
                            std::mem::swap(&mut self.statements, &mut nodes);
                            assert(asts(self.statements@) =~= Seq::empty());
                            return Ok(ParseStep::Done(nodes));
                        },
                    }
                }
            } else if self.at(&TokenType::Include) {
                let place = (self.current_token.line, self.current_token.column);
                let path = self.parse_include()?;
                self.directive = place;
                let request = self.request(path);
                return Ok(ParseStep::Include(request));
            } else {
                let node = self.parse_statement()?;
                proof {
                    assert(asts(self.statements@.push(node)) =~= asts(self.statements@).push(
                        node@,
                    ));
                }
                self.statements.push(node);
            }
        }
    }

    /// Registers a file for inclusion, by its canonical path. A file that was
    /// registered before is refused as a circular include; `full_path` names
    /// it in the message, and the error points to the directive.
    pub fn register_include(&mut self, full_path: &str, canonical: String) -> (r: Result<()>)
        ensures
            match r {
                Ok(_) => register(old(self)@, full_path@, canonical@) == Ok::<
                    ParserView,
                    SpecError,
                >(final(self)@),
                Err(e) => register(old(self)@, full_path@, canonical@) == Err::<
                    ParserView,
                    SpecError,
                >(e@) && final(self)@ == old(self)@,
            },
            old(self)@.included.no_duplicates() ==> final(self)@.included.no_duplicates(),
    {
        proof {
            if self@.included.no_duplicates() {
                crate::text::lemma_intern(self@.included, canonical@);
            }
        }
        if find(&self.included_files, canonical.as_str()) < self.included_files.len() {
            let mut message = String::from_str("circular include detected: ");
            message.append(full_path);
            Err(
                self.lexer.create_error_at(
                    self.directive.0,
                    self.directive.1,
                    ErrorKind::SyntaxError(message),
                ),
            )
        } else {
            proof {
                lemma_texts_push(self.included_files@, canonical);
            }
            self.included_files.push(canonical);
            Ok(())
        }
    }

    /// Enters an included file: the including file waits, and the parser
    /// stands at the first token of `source`. `canonical` names the file in
    /// messages, `directory` is where its own includes are looked for.
    pub fn enter_include(&mut self, source: &str, canonical: String, directory: String) -> (r:
        Result<()>)
        requires
            source@.len() < usize::MAX,
        ensures
            match r {
                Ok(_) => enter(old(self)@, source@, canonical@, directory@) == Ok::<
                    ParserView,
                    SpecError,
                >(final(self)@),
                Err(e) => enter(old(self)@, source@, canonical@, directory@) == Err::<
                    ParserView,
                    SpecError,
                >(e@) && final(self)@ == old(self)@,
            },
    {
        let mut lexer = Lexer::new(source, canonical);
        let mut token = lexer.next_token()?;
        let mut directory = directory;
        std::mem::swap(&mut self.lexer, &mut lexer);
        std::mem::swap(&mut self.current_token, &mut token);
        std::mem::swap(&mut self.current_dir, &mut directory);
        let frame = Frame { lexer, current_token: token, current_dir: directory };
        self.suspended.push(frame);
        assert(self@.suspended =~= old(self)@.suspended.push(frame@));
        Ok(())
    }

    /// The error for a file that could not be included. It points to the
    /// directive that asked for the file.
    pub fn include_error(&self, failure: IncludeFailure) -> (e: CompilerError)
        ensures
            e@ == error_in(
                self@.state.lexer,
                self@.directive,
                SpecErrorKind::IOError(failure_message(failure)),
            ),
    {
        let message = match &failure {
            IncludeFailure::NoStdlib(reason) => {
                let mut message = String::from_str("couldn't determine stdlib path: ");
                message.append(reason.as_str());
                message
            },
            IncludeFailure::Unresolved { path, reason } => {
                let mut message = String::from_str("failed to resolve path '");
                message.append(path.as_str());
                message.append("': ");
                message.append(reason.as_str());
                message
            },
            IncludeFailure::Unreadable { path, reason } => {
                let mut message = String::from_str("couldn't read '");
                message.append(path.as_str());
                message.append("': ");
                message.append(reason.as_str());
                message
            },
        };
        self.lexer.create_error_at(self.directive.0, self.directive.1, ErrorKind::IOError(message))
    }
}

} // verus!
