//! The grammar, as mathematics: what parsing yields from a state of the
//! parser, written as recursive descent over the scanner's model.
//!
//! From highest to lowest precedence, left-associative unless noted:
//!
//! ```text
//! primary        := NUMBER | STRING | IDENT ( '[' expr ']' )? | IDENT '(' args ')' | '(' expr ')'
//! multiplicative := primary ( ('*'|'/') primary )*
//! additive       := multiplicative ( ('+'|'-') multiplicative )*
//! comparison     := additive ( ('=='|'!='|'<'|'>'|'<='|'>=') additive )*
//! logical        := comparison ( ('&&'|'||') comparison )*
//! assignment     := logical ( '=' assignment )?          right-associative
//! statement      := funcDecl | return | if | while | block | asm | expr ';'
//! ```
//!
//! There is no unary operator: `-3` is a `-` and a number, and stands only
//! where a binary expression can.
//!
//! An error of the grammar points to the start of the token at which it
//! arose, an error of the scanner to the place where the scanner stands. A
//! failed parse keeps what it consumed before the error.
//!
//! Parsing never moves backwards. The functions below say so where one result
//! feeds the next step ([`within`], and the test in [`eat`]); these tests
//! never fail, and they make the recursion well-founded.

use vstd::prelude::*;
use crate::ast::{Ast, BinaryOperator};
use crate::lexer::{describe, Tok};
use crate::stream::{eat, fail, measure, skip, within, ParseState, Parsed};
use crate::text::{intern, position};

verus! {

broadcast use crate::stream::lemma_eat_moves;

/// The operator of a multiplicative token.
pub open spec fn multiplicative_operator(t: Tok) -> Option<BinaryOperator> {
    match t {
        Tok::Multiply => Some(BinaryOperator::Multiply),
        Tok::Divide => Some(BinaryOperator::Divide),
        _ => None,
    }
}

/// The operator of an additive token.
pub open spec fn additive_operator(t: Tok) -> Option<BinaryOperator> {
    match t {
        Tok::Plus => Some(BinaryOperator::Add),
        Tok::Minus => Some(BinaryOperator::Subtract),
        _ => None,
    }
}

/// The operator of a comparison token.
pub open spec fn comparison_operator(t: Tok) -> Option<BinaryOperator> {
    match t {
        Tok::Equals => Some(BinaryOperator::Equals),
        Tok::NotEquals => Some(BinaryOperator::NotEquals),
        Tok::Less => Some(BinaryOperator::Less),
        Tok::Greater => Some(BinaryOperator::Greater),
        Tok::LessEqual => Some(BinaryOperator::LessEqual),
        Tok::GreaterEqual => Some(BinaryOperator::GreaterEqual),
        _ => None,
    }
}

/// The operator of a logical token.
pub open spec fn logical_operator(t: Tok) -> Option<BinaryOperator> {
    match t {
        Tok::And => Some(BinaryOperator::And),
        Tok::Or => Some(BinaryOperator::Or),
        _ => None,
    }
}

/// A binary expression.
pub open spec fn binary(left: Ast, op: BinaryOperator, right: Ast) -> Ast {
    Ast::BinaryOp(Box::new(left), op, Box::new(right))
}

/// `primary := NUMBER | STRING | IDENT ( '[' expr ']' )? | IDENT '(' args ')' | '(' expr ')'`
#[verifier::opaque]
pub open spec fn parse_primary(st: ParseState) -> Parsed<Ast>
    decreases measure(st), 0nat,
{
    match st.current {
        Tok::Number(n) => match eat(st, st.current) {
            Ok(st1) => Ok((Ast::Number(n), st1)),
            Err(e) => Err(e),
        },
        Tok::StringLiteral(text) => match eat(st, st.current) {
            Ok(st1) => Ok((Ast::StringLiteral(text), st1)),
            Err(e) => Err(e),
        },
        Tok::Identifier(name) => match eat(st, st.current) {
            Ok(st1) => if st1.current is LeftBracket {
                match eat(st1, Tok::LeftBracket) {
                    Ok(st2) => match parse_expression(st2) {
                        Ok((index, st3)) => match eat(st3, Tok::RightBracket) {
                            Ok(st4) => Ok(
                                (
                                    Ast::ArrayIndex(
                                        Box::new(Ast::Variable(name)),
                                        Box::new(index),
                                    ),
                                    st4,
                                ),
                            ),
                            Err(e) => Err(e),
                        },
                        Err(e) => Err(e),
                    },
                    Err(e) => Err(e),
                }
            } else if st1.current is LParen {
                parse_function_call(st1, name)
            } else {
                Ok((Ast::Variable(name), st1))
            },
            Err(e) => Err(e),
        },
        Tok::LParen => match eat(st, Tok::LParen) {
            Ok(st1) => match parse_expression(st1) {
                Ok((expr, st2)) => match eat(st2, Tok::RParen) {
                    Ok(st3) => Ok((expr, st3)),
                    Err(e) => Err(e),
                },
                Err(e) => Err(e),
            },
            Err(e) => Err(e),
        },
        _ => Err(fail(st, "unexpected token in expression: "@ + describe(st.current))),
    }
}

/// A call of `name`, from its opening parenthesis. The function must have
/// been declared before.
#[verifier::opaque]
pub open spec fn parse_function_call(st: ParseState, name: Seq<char>) -> Parsed<Ast>
    decreases measure(st), 0nat,
{
    if st.strict && position(st.declared, name) >= st.declared.len() {
        Err(fail(st, "call to undeclared function '"@ + name + "'"@))
    } else {
        match eat(st, Tok::LParen) {
            Ok(st1) => {
                let args = if st1.current is RParen {
                    Ok((Seq::empty(), st1))
                } else {
                    match within(parse_expression(st1), measure(st1) as int) {
                        Ok((first, st2)) => parse_arguments(st2, seq![first]),
                        Err(e) => Err(e),
                    }
                };
                match args {
                    Ok((list, st3)) => match eat(st3, Tok::RParen) {
                        Ok(st4) => Ok((Ast::FunctionCall(name, list), st4)),
                        Err(e) => Err(e),
                    },
                    Err(e) => Err(e),
                }
            },
            Err(e) => Err(e),
        }
    }
}

/// The arguments after the first: `( ',' expr )*`.
#[verifier::opaque]
pub open spec fn parse_arguments(st: ParseState, args: Seq<Ast>) -> Parsed<Seq<Ast>>
    decreases measure(st), 0nat,
{
    if st.current is Comma {
        match eat(st, Tok::Comma) {
            Ok(st1) => match within(parse_expression(st1), measure(st1) as int) {
                Ok((arg, st2)) => parse_arguments(st2, args.push(arg)),
                Err(e) => Err(e),
            },
            Err(e) => Err(e),
        }
    } else {
        Ok((args, st))
    }
}

/// `multiplicative := primary ( ('*'|'/') primary )*`
#[verifier::opaque]
pub open spec fn parse_multiplicative(st: ParseState) -> Parsed<Ast>
    decreases measure(st), 2nat,
{
    match within(parse_primary(st), measure(st) as int) {
        Ok((left, st1)) => parse_multiplicative_rest(st1, left),
        Err(e) => Err(e),
    }
}

/// `( ('*'|'/') primary )*` after the operand `left`.
#[verifier::opaque]
pub open spec fn parse_multiplicative_rest(st: ParseState, left: Ast) -> Parsed<Ast>
    decreases measure(st), 1nat,
{
    match multiplicative_operator(st.current) {
        Some(op) => match eat(st, st.current) {
            Ok(st1) => match within(parse_primary(st1), measure(st1) as int) {
                Ok((right, st2)) => parse_multiplicative_rest(st2, binary(left, op, right)),
                Err(e) => Err(e),
            },
            Err(e) => Err(e),
        },
        None => Ok((left, st)),
    }
}

/// `additive := multiplicative ( ('+'|'-') multiplicative )*`
#[verifier::opaque]
pub open spec fn parse_additive(st: ParseState) -> Parsed<Ast>
    decreases measure(st), 4nat,
{
    match within(parse_multiplicative(st), measure(st) as int) {
        Ok((left, st1)) => parse_additive_rest(st1, left),
        Err(e) => Err(e),
    }
}

/// `( ('+'|'-') multiplicative )*` after the operand `left`.
#[verifier::opaque]
pub open spec fn parse_additive_rest(st: ParseState, left: Ast) -> Parsed<Ast>
    decreases measure(st), 3nat,
{
    match additive_operator(st.current) {
        Some(op) => match eat(st, st.current) {
            Ok(st1) => match within(parse_multiplicative(st1), measure(st1) as int) {
                Ok((right, st2)) => parse_additive_rest(st2, binary(left, op, right)),
                Err(e) => Err(e),
            },
            Err(e) => Err(e),
        },
        None => Ok((left, st)),
    }
}

/// `comparison := additive ( ('=='|'!='|'<'|'>'|'<='|'>=') additive )*`
#[verifier::opaque]
pub open spec fn parse_comparison(st: ParseState) -> Parsed<Ast>
    decreases measure(st), 6nat,
{
    match within(parse_additive(st), measure(st) as int) {
        Ok((left, st1)) => parse_comparison_rest(st1, left),
        Err(e) => Err(e),
    }
}

/// `( ('=='|'!='|'<'|'>'|'<='|'>=') additive )*` after the operand `left`.
#[verifier::opaque]
pub open spec fn parse_comparison_rest(st: ParseState, left: Ast) -> Parsed<Ast>
    decreases measure(st), 5nat,
{
    match comparison_operator(st.current) {
        Some(op) => match eat(st, st.current) {
            Ok(st1) => match within(parse_additive(st1), measure(st1) as int) {
                Ok((right, st2)) => parse_comparison_rest(st2, binary(left, op, right)),
                Err(e) => Err(e),
            },
            Err(e) => Err(e),
        },
        None => Ok((left, st)),
    }
}

/// `logical := comparison ( ('&&'|'||') comparison )*`
#[verifier::opaque]
pub open spec fn parse_logical(st: ParseState) -> Parsed<Ast>
    decreases measure(st), 8nat,
{
    match within(parse_comparison(st), measure(st) as int) {
        Ok((left, st1)) => parse_logical_rest(st1, left),
        Err(e) => Err(e),
    }
}

/// `( ('&&'|'||') comparison )*` after the operand `left`.
#[verifier::opaque]
pub open spec fn parse_logical_rest(st: ParseState, left: Ast) -> Parsed<Ast>
    decreases measure(st), 7nat,
{
    match logical_operator(st.current) {
        Some(op) => match eat(st, st.current) {
            Ok(st1) => match within(parse_comparison(st1), measure(st1) as int) {
                Ok((right, st2)) => parse_logical_rest(st2, binary(left, op, right)),
                Err(e) => Err(e),
            },
            Err(e) => Err(e),
        },
        None => Ok((left, st)),
    }
}

/// `assignment := logical ( '=' assignment )?`. The target is a variable or
/// an indexed array; the value groups to the right.
#[verifier::opaque]
pub open spec fn parse_assignment(st: ParseState) -> Parsed<Ast>
    decreases measure(st), 9nat,
{
    match within(parse_logical(st), measure(st) as int) {
        Ok((expr, st1)) => if st1.current is Assign {
            match expr {
                Ast::Variable(name) => match eat(st1, Tok::Assign) {
                    Ok(st2) => match parse_assignment(st2) {
                        Ok((value, st3)) => Ok((Ast::Assignment(name, Box::new(value)), st3)),
                        Err(e) => Err(e),
                    },
                    Err(e) => Err(e),
                },
                Ast::ArrayIndex(array, index) => match eat(st1, Tok::Assign) {
                    Ok(st2) => match parse_assignment(st2) {
                        Ok((value, st3)) => Ok(
                            (Ast::ArrayAssignment(array, index, Box::new(value)), st3),
                        ),
                        Err(e) => Err(e),
                    },
                    Err(e) => Err(e),
                },
                _ => Err(fail(st1, "invalid assignment target"@)),
            }
        } else {
            Ok((expr, st1))
        },
        Err(e) => Err(e),
    }
}

/// `expression := assignment`
#[verifier::opaque]
pub open spec fn parse_expression(st: ParseState) -> Parsed<Ast>
    decreases measure(st), 10nat,
{
    parse_assignment(st)
}

/// `statement := funcDecl | return | if | while | block | asm | expression ';'`
#[verifier::opaque]
pub open spec fn parse_statement(st: ParseState) -> Parsed<Ast>
    decreases measure(st), 12nat,
{
    match st.current {
        Tok::Function => parse_function_declaration(st),
        Tok::Return => parse_return_statement(st),
        Tok::If => parse_if_statement(st),
        Tok::While => parse_while_statement(st),
        Tok::LBrace => parse_block(st),
        Tok::Asm => parse_inline_asm(st),
        _ => match parse_expression(st) {
            Ok((expr, st1)) => match eat(st1, Tok::Semicolon) {
                Ok(st2) => Ok((expr, st2)),
                Err(e) => Err(e),
            },
            Err(e) => Err(e),
        },
    }
}

/// `if '(' expr ')' statement ( else statement )?`
#[verifier::opaque]
pub open spec fn parse_if_statement(st: ParseState) -> Parsed<Ast>
    decreases measure(st), 11nat,
{
    match eat(st, Tok::If) {
        Ok(st1) => match eat(st1, Tok::LParen) {
            Ok(st2) => match within(parse_expression(st2), measure(st2) as int) {
                Ok((condition, st3)) => match eat(st3, Tok::RParen) {
                    Ok(st4) => match within(parse_statement(st4), measure(st4) as int) {
                        Ok((then_branch, st5)) => if st5.current is Else {
                            match eat(st5, Tok::Else) {
                                Ok(st6) => match parse_statement(st6) {
                                    Ok((else_branch, st7)) => Ok(
                                        (
                                            Ast::If(
                                                Box::new(condition),
                                                Box::new(then_branch),
                                                Some(Box::new(else_branch)),
                                            ),
                                            st7,
                                        ),
                                    ),
                                    Err(e) => Err(e),
                                },
                                Err(e) => Err(e),
                            }
                        } else {
                            Ok((Ast::If(Box::new(condition), Box::new(then_branch), None), st5))
                        },
                        Err(e) => Err(e),
                    },
                    Err(e) => Err(e),
                },
                Err(e) => Err(e),
            },
            Err(e) => Err(e),
        },
        Err(e) => Err(e),
    }
}

/// `while '(' expr ')' statement`
#[verifier::opaque]
pub open spec fn parse_while_statement(st: ParseState) -> Parsed<Ast>
    decreases measure(st), 11nat,
{
    match eat(st, Tok::While) {
        Ok(st1) => match eat(st1, Tok::LParen) {
            Ok(st2) => match within(parse_expression(st2), measure(st2) as int) {
                Ok((condition, st3)) => match eat(st3, Tok::RParen) {
                    Ok(st4) => match parse_statement(st4) {
                        Ok((body, st5)) => Ok(
                            (Ast::While(Box::new(condition), Box::new(body)), st5),
                        ),
                        Err(e) => Err(e),
                    },
                    Err(e) => Err(e),
                },
                Err(e) => Err(e),
            },
            Err(e) => Err(e),
        },
        Err(e) => Err(e),
    }
}

/// `'{' statement* '}'`
#[verifier::opaque]
pub open spec fn parse_block(st: ParseState) -> Parsed<Ast>
    decreases measure(st), 11nat,
{
    match eat(st, Tok::LBrace) {
        Ok(st1) => match parse_block_items(st1, Seq::empty()) {
            Ok((items, st2)) => match eat(st2, Tok::RBrace) {
                Ok(st3) => Ok((Ast::Block(items), st3)),
                Err(e) => Err(e),
            },
            Err(e) => Err(e),
        },
        Err(e) => Err(e),
    }
}

/// The statements of a block up to its closing brace, after `items`.
#[verifier::opaque]
pub open spec fn parse_block_items(st: ParseState, items: Seq<Ast>) -> Parsed<Seq<Ast>>
    decreases measure(st), 13nat,
{
    if st.current is RBrace {
        Ok((items, st))
    } else {
        match within(parse_statement(st), measure(st) - 1) {
            Ok((item, st1)) => parse_block_items(st1, items.push(item)),
            Err(e) => Err(e),
        }
    }
}

/// `return expr? ';'`
#[verifier::opaque]
pub open spec fn parse_return_statement(st: ParseState) -> Parsed<Ast>
    decreases measure(st), 11nat,
{
    match eat(st, Tok::Return) {
        Ok(st1) => if st1.current is Semicolon {
            match eat(st1, Tok::Semicolon) {
                Ok(st2) => Ok((Ast::Return(None), st2)),
                Err(e) => Err(e),
            }
        } else {
            match parse_expression(st1) {
                Ok((value, st2)) => match eat(st2, Tok::Semicolon) {
                    Ok(st3) => Ok((Ast::Return(Some(Box::new(value))), st3)),
                    Err(e) => Err(e),
                },
                Err(e) => Err(e),
            }
        },
        Err(e) => Err(e),
    }
}

/// The parameters after the first. A comma that no identifier follows adds
/// no parameter.
#[verifier::opaque]
pub open spec fn parse_more_parameters(st: ParseState, params: Seq<Seq<char>>) -> Parsed<
    Seq<Seq<char>>,
>
    decreases measure(st),
{
    if st.current is Comma {
        match eat(st, Tok::Comma) {
            Ok(st1) => match st1.current {
                Tok::Identifier(name) => match eat(st1, st1.current) {
                    Ok(st2) => parse_more_parameters(st2, params.push(name)),
                    Err(e) => Err(e),
                },
                _ => parse_more_parameters(st1, params),
            },
            Err(e) => Err(e),
        }
    } else {
        Ok((params, st))
    }
}

/// The parameters of a function: identifiers separated by commas, or none.
#[verifier::opaque]
pub open spec fn parse_parameters(st: ParseState) -> Parsed<Seq<Seq<char>>> {
    match st.current {
        Tok::Identifier(name) => match eat(st, st.current) {
            Ok(st1) => parse_more_parameters(st1, seq![name]),
            Err(e) => Err(e),
        },
        _ => Ok((Seq::empty(), st)),
    }
}

/// `fn NAME '(' params ')' ';'` declares a function, `fn NAME '(' params ')' block`
/// defines and declares it. A function may be declared again and again,
/// before and after its definition; only a second body is an error.
#[verifier::opaque]
pub open spec fn parse_function_declaration(st: ParseState) -> Parsed<Ast>
    decreases measure(st), 11nat,
{
    match eat(st, Tok::Function) {
        Ok(st1) => match st1.current {
            Tok::Identifier(name) => match eat(st1, st1.current) {
                Ok(st2) => match eat(st2, Tok::LParen) {
                    Ok(st3) => match within(parse_parameters(st3), measure(st3) as int) {
                        Ok((params, st4)) => match eat(st4, Tok::RParen) {
                            Ok(st5) => if st5.current is Semicolon {
                                match eat(st5, Tok::Semicolon) {
                                    Ok(st6) => Ok(
                                        (
                                            Ast::FunctionPredecl(name, params),
                                            ParseState {
                                                declared: intern(st6.declared, name),
                                                ..st6
                                            },
                                        ),
                                    ),
                                    Err(e) => Err(e),
                                }
                            } else if st5.strict && position(st5.defined, name)
                                < st5.defined.len() {
                                Err(fail(
                                        st5,
                                        "function '"@ + name + "' is already defined"@,
                                    ),
                                )
                            } else {
                                match parse_block(st5) {
                                    Ok((body, st6)) => Ok(
                                        (
                                            Ast::FunctionDecl(name, params, Box::new(body)),
                                            ParseState {
                                                declared: intern(st6.declared, name),
                                                defined: intern(st6.defined, name),
                                                ..st6
                                            },
                                        ),
                                    ),
                                    Err(e) => Err(e),
                                }
                            },
                            Err(e) => Err(e),
                        },
                        Err(e) => Err(e),
                    },
                    Err(e) => Err(e),
                },
                Err(e) => Err(e),
            },
            _ => Err(fail(st1, "expected function name"@)),
        },
        Err(e) => Err(e),
    }
}

/// A string literal, or the error with the given message.
#[verifier::opaque]
pub open spec fn parse_string(st: ParseState, message: Seq<char>) -> Parsed<Seq<char>> {
    match st.current {
        Tok::StringLiteral(text) => match eat(st, st.current) {
            Ok(st1) => Ok((text, st1)),
            Err(e) => Err(e),
        },
        _ => Err(fail(st, message)),
    }
}

/// An identifier, or the error with the given message.
#[verifier::opaque]
pub open spec fn parse_name(st: ParseState, message: Seq<char>) -> Parsed<Seq<char>> {
    match st.current {
        Tok::Identifier(name) => match eat(st, st.current) {
            Ok(st1) => Ok((name, st1)),
            Err(e) => Err(e),
        },
        _ => Err(fail(st, message)),
    }
}

/// One operand of an inline assembly block: `"constraint" '[' IDENT ']'`,
/// after a comma unless it is the first. Whitespace and comments after it
/// are passed over.
#[verifier::opaque]
pub open spec fn parse_operand(st: ParseState, first: bool, message: Seq<char>) -> Parsed<
    (Seq<char>, Seq<char>),
> {
    let separated = if first {
        Ok(st)
    } else {
        eat(st, Tok::Comma)
    };
    match separated {
        Ok(st1) => match parse_string(st1, "expected string literal for constraint"@) {
            Ok((constraint, st2)) => match eat(st2, Tok::LeftBracket) {
                Ok(st3) => match parse_name(st3, message) {
                    Ok((name, st4)) => match eat(st4, Tok::RightBracket) {
                        Ok(st5) => Ok(((constraint, name), skip(st5))),
                        Err(e) => Err(e),
                    },
                    Err(e) => Err(e),
                },
                Err(e) => Err(e),
            },
            Err(e) => Err(e),
        },
        Err(e) => Err(e),
    }
}

/// The operands of one section, up to the next colon or the semicolon.
#[verifier::opaque]
pub open spec fn parse_operands(
    st: ParseState,
    operands: Seq<(Seq<char>, Seq<char>)>,
    message: Seq<char>,
) -> Parsed<Seq<(Seq<char>, Seq<char>)>>
    decreases measure(st),
{
    if st.current is Colon || st.current is Semicolon {
        Ok((operands, st))
    } else {
        match within(parse_operand(st, operands.len() == 0, message), measure(st) - 1) {
            Ok((operand, st1)) => parse_operands(st1, operands.push(operand), message),
            Err(e) => Err(e),
        }
    }
}

/// One clobber: a string literal, after a comma unless it is the first.
#[verifier::opaque]
pub open spec fn parse_clobber(st: ParseState, first: bool) -> Parsed<Seq<char>> {
    let separated = if first {
        Ok(st)
    } else {
        eat(st, Tok::Comma)
    };
    match separated {
        Ok(st1) => match parse_string(st1, "expected string literal for clobber"@) {
            Ok((clobber, st2)) => Ok((clobber, skip(st2))),
            Err(e) => Err(e),
        },
        Err(e) => Err(e),
    }
}

/// The clobbers, up to the semicolon.
#[verifier::opaque]
pub open spec fn parse_clobbers(st: ParseState, clobbers: Seq<Seq<char>>) -> Parsed<
    Seq<Seq<char>>,
>
    decreases measure(st),
{
    if st.current is Semicolon {
        Ok((clobbers, st))
    } else {
        match within(parse_clobber(st, clobbers.len() == 0), measure(st) - 1) {
            Ok((clobber, st1)) => parse_clobbers(st1, clobbers.push(clobber)),
            Err(e) => Err(e),
        }
    }
}

/// A section of operands that a colon opens, or no operands where none does.
#[verifier::opaque]
pub open spec fn parse_section(st: ParseState, message: Seq<char>) -> Parsed<
    Seq<(Seq<char>, Seq<char>)>,
> {
    if st.current is Colon {
        match eat(st, Tok::Colon) {
            Ok(st1) => parse_operands(st1, Seq::empty(), message),
            Err(e) => Err(e),
        }
    } else {
        Ok((Seq::empty(), st))
    }
}

/// The section of clobbers that a colon opens, or no clobbers where none does.
#[verifier::opaque]
pub open spec fn parse_clobber_section(st: ParseState) -> Parsed<Seq<Seq<char>>> {
    if st.current is Colon {
        match eat(st, Tok::Colon) {
            Ok(st1) => parse_clobbers(st1, Seq::empty()),
            Err(e) => Err(e),
        }
    } else {
        Ok((Seq::empty(), st))
    }
}

/// `asm "template" ( ':' operands ( ':' operands ( ':' clobbers )? )? )? ';'`
///
/// The sections are outputs, inputs and clobbers. Whitespace and comments
/// are passed over after `asm`, after the template and after each operand.
#[verifier::opaque]
pub open spec fn parse_inline_asm(st: ParseState) -> Parsed<Ast> {
    match eat(st, Tok::Asm) {
        Ok(st1) => match parse_string(skip(st1), "expected string literal for asm template"@) {
            Ok((template, st2)) => {
                let st3 = skip(st2);
                let sections = if st3.current is Colon {
                    match parse_section(st3, "expected identifier for output operand"@) {
                        Ok((outputs, st4)) => match parse_section(
                            st4,
                            "expected identifier for input operand"@,
                        ) {
                            Ok((inputs, st5)) => match parse_clobber_section(st5) {
                                Ok((clobbers, st6)) => Ok(((outputs, inputs, clobbers), st6)),
                                Err(e) => Err(e),
                            },
                            Err(e) => Err(e),
                        },
                        Err(e) => Err(e),
                    }
                } else {
                    Ok(((Seq::empty(), Seq::empty(), Seq::empty()), st3))
                };
                match sections {
                    Ok(((outputs, inputs, clobbers), st7)) => match eat(st7, Tok::Semicolon) {
                        Ok(st8) => Ok(
                            (Ast::InlineAsm { template, outputs, inputs, clobbers }, st8),
                        ),
                        Err(e) => Err(e),
                    },
                    Err(e) => Err(e),
                }
            },
            Err(e) => Err(e),
        },
        Err(e) => Err(e),
    }
}

} // verus!
