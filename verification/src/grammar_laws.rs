//! What holds of the grammar for every input: parsing consumes what it
//! reads and never moves backwards, so the tests that make the grammar's
//! recursion well-founded never fail.

use vstd::prelude::*;
use crate::ast::{Ast, BinaryOperator};
use crate::grammar::{
    additive_operator, binary, comparison_operator, logical_operator, multiplicative_operator,
    parse_additive, parse_additive_rest, parse_arguments, parse_assignment, parse_block,
    parse_block_items, parse_clobber, parse_clobber_section, parse_clobbers, parse_comparison,
    parse_comparison_rest, parse_expression, parse_function_call, parse_function_declaration,
    parse_if_statement, parse_inline_asm, parse_logical, parse_logical_rest, parse_more_parameters,
    parse_multiplicative, parse_multiplicative_rest, parse_name, parse_operand, parse_operands,
    parse_parameters, parse_primary, parse_return_statement, parse_section, parse_statement,
    parse_string, parse_while_statement,
};
use crate::lexer::Tok;
use crate::stream::{eat, lemma_skip, measure, skip, Failure, ParseState, Parsed};

verus! {

broadcast use crate::stream::lemma_eat_moves;

/// Whether a result, where it is a value, leaves less to parse than the
/// state it started from (`strictly`) or at least no more, in the same input.
pub open spec fn moves<T>(r: Parsed<T>, st: ParseState, strictly: bool) -> bool {
    r matches Ok((value, st1)) ==> (if strictly {
        measure(st1) < measure(st)
    } else {
        measure(st1) <= measure(st)
    }) && st1.lexer.input == st.lexer.input && st1.lexer.file == st.lexer.file
}

/// A primary expression consumes at least one token.
pub proof fn lemma_primary_moves(st: ParseState)
    ensures
        moves(parse_primary(st), st, true),
    decreases measure(st), 0nat,
{
    reveal(parse_primary);
    reveal(parse_expression);
    reveal(parse_function_call);
    if let Ok(st1) = eat(st, st.current) {
        if let Tok::Identifier(name) = st.current {
            lemma_function_call_moves(st1, name);
        }
        if let Ok(st2) = eat(st1, Tok::LeftBracket) {
            lemma_expression_moves(st2);
        }
        lemma_expression_moves(st1);
    }
}

/// A call consumes at least its parentheses.
pub proof fn lemma_function_call_moves(st: ParseState, name: Seq<char>)
    ensures
        moves(parse_function_call(st, name), st, true),
    decreases measure(st), 0nat,
{
    reveal(parse_function_call);
    reveal(parse_expression);
    reveal(parse_arguments);
    if let Ok(st1) = eat(st, Tok::LParen) {
        lemma_expression_moves(st1);
        if let Ok((first, st2)) = parse_expression(st1) {
            lemma_arguments_moves(st2, seq![first]);
        }
    }
}

/// The further arguments of a call consume what they read.
pub proof fn lemma_arguments_moves(st: ParseState, args: Seq<Ast>)
    ensures
        moves(parse_arguments(st, args), st, false),
    decreases measure(st), 0nat,
{
    reveal(parse_arguments);
    reveal(parse_expression);
    if let Ok(st1) = eat(st, Tok::Comma) {
        lemma_expression_moves(st1);
        if let Ok((arg, st2)) = parse_expression(st1) {
            lemma_arguments_moves(st2, args.push(arg));
        }
    }
}

/// An expression of this level consumes at least one token.
pub proof fn lemma_multiplicative_moves(st: ParseState)
    ensures
        moves(parse_multiplicative(st), st, true),
    decreases measure(st), 2nat,
{
    reveal(parse_multiplicative);
    reveal(parse_primary);
    reveal(parse_multiplicative_rest);
    lemma_primary_moves(st);
    if let Ok((left, st1)) = parse_primary(st) {
        lemma_multiplicative_rest_moves(st1, left);
    }
}

/// The operators of this level and their operands consume what they read.
pub proof fn lemma_multiplicative_rest_moves(st: ParseState, left: Ast)
    ensures
        moves(parse_multiplicative_rest(st, left), st, false),
    decreases measure(st), 1nat,
{
    reveal(parse_multiplicative_rest);
    reveal(parse_primary);
    if let Some(op) = multiplicative_operator(st.current) {
        if let Ok(st1) = eat(st, st.current) {
            lemma_primary_moves(st1);
            if let Ok((right, st2)) = parse_primary(st1) {
                lemma_multiplicative_rest_moves(st2, binary(left, op, right));
            }
        }
    }
}

/// An expression of this level consumes at least one token.
pub proof fn lemma_additive_moves(st: ParseState)
    ensures
        moves(parse_additive(st), st, true),
    decreases measure(st), 4nat,
{
    reveal(parse_additive);
    reveal(parse_multiplicative);
    reveal(parse_additive_rest);
    lemma_multiplicative_moves(st);
    if let Ok((left, st1)) = parse_multiplicative(st) {
        lemma_additive_rest_moves(st1, left);
    }
}

/// The operators of this level and their operands consume what they read.
pub proof fn lemma_additive_rest_moves(st: ParseState, left: Ast)
    ensures
        moves(parse_additive_rest(st, left), st, false),
    decreases measure(st), 3nat,
{
    reveal(parse_additive_rest);
    reveal(parse_multiplicative);
    if let Some(op) = additive_operator(st.current) {
        if let Ok(st1) = eat(st, st.current) {
            lemma_multiplicative_moves(st1);
            if let Ok((right, st2)) = parse_multiplicative(st1) {
                lemma_additive_rest_moves(st2, binary(left, op, right));
            }
        }
    }
}

/// An expression of this level consumes at least one token.
pub proof fn lemma_comparison_moves(st: ParseState)
    ensures
        moves(parse_comparison(st), st, true),
    decreases measure(st), 6nat,
{
    reveal(parse_comparison);
    reveal(parse_additive);
    reveal(parse_comparison_rest);
    lemma_additive_moves(st);
    if let Ok((left, st1)) = parse_additive(st) {
        lemma_comparison_rest_moves(st1, left);
    }
}

/// The operators of this level and their operands consume what they read.
pub proof fn lemma_comparison_rest_moves(st: ParseState, left: Ast)
    ensures
        moves(parse_comparison_rest(st, left), st, false),
    decreases measure(st), 5nat,
{
    reveal(parse_comparison_rest);
    reveal(parse_additive);
    if let Some(op) = comparison_operator(st.current) {
        if let Ok(st1) = eat(st, st.current) {
            lemma_additive_moves(st1);
            if let Ok((right, st2)) = parse_additive(st1) {
                lemma_comparison_rest_moves(st2, binary(left, op, right));
            }
        }
    }
}

/// An expression of this level consumes at least one token.
pub proof fn lemma_logical_moves(st: ParseState)
    ensures
        moves(parse_logical(st), st, true),
    decreases measure(st), 8nat,
{
    reveal(parse_logical);
    reveal(parse_comparison);
    reveal(parse_logical_rest);
    lemma_comparison_moves(st);
    if let Ok((left, st1)) = parse_comparison(st) {
        lemma_logical_rest_moves(st1, left);
    }
}

/// The operators of this level and their operands consume what they read.
pub proof fn lemma_logical_rest_moves(st: ParseState, left: Ast)
    ensures
        moves(parse_logical_rest(st, left), st, false),
    decreases measure(st), 7nat,
{
    reveal(parse_logical_rest);
    reveal(parse_comparison);
    if let Some(op) = logical_operator(st.current) {
        if let Ok(st1) = eat(st, st.current) {
            lemma_comparison_moves(st1);
            if let Ok((right, st2)) = parse_comparison(st1) {
                lemma_logical_rest_moves(st2, binary(left, op, right));
            }
        }
    }
}

/// An assignment consumes at least one token.
pub proof fn lemma_assignment_moves(st: ParseState)
    ensures
        moves(parse_assignment(st), st, true),
    decreases measure(st), 9nat,
{
    reveal(parse_assignment);
    reveal(parse_logical);
    lemma_logical_moves(st);
    if let Ok((expr, st1)) = parse_logical(st) {
        if let Ok(st2) = eat(st1, Tok::Assign) {
            lemma_assignment_moves(st2);
        }
    }
}

/// An expression consumes at least one token.
pub proof fn lemma_expression_moves(st: ParseState)
    ensures
        moves(parse_expression(st), st, true),
    decreases measure(st), 10nat,
{
    reveal(parse_expression);
    reveal(parse_assignment);
    lemma_assignment_moves(st);
}

/// A statement consumes at least one token.
pub proof fn lemma_statement_moves(st: ParseState)
    ensures
        moves(parse_statement(st), st, true),
    decreases measure(st), 12nat,
{
    reveal(parse_statement);
    reveal(parse_function_declaration);
    reveal(parse_return_statement);
    reveal(parse_if_statement);
    reveal(parse_while_statement);
    reveal(parse_block);
    reveal(parse_expression);
    match st.current {
        Tok::Function => {
            lemma_function_declaration_moves(st);
        },
        Tok::Return => {
            lemma_return_moves(st);
        },
        Tok::If => {
            lemma_if_moves(st);
        },
        Tok::While => {
            lemma_while_moves(st);
        },
        Tok::LBrace => {
            lemma_block_moves(st);
        },
        Tok::Asm => {
            lemma_inline_asm_moves(st);
        },
        _ => {
            lemma_expression_moves(st);
        },
    }
}

/// A conditional consumes at least one token.
pub proof fn lemma_if_moves(st: ParseState)
    ensures
        moves(parse_if_statement(st), st, true),
    decreases measure(st), 11nat,
{
    reveal(parse_if_statement);
    reveal(parse_expression);
    reveal(parse_statement);
    if let Ok(st1) = eat(st, Tok::If) {
        if let Ok(st2) = eat(st1, Tok::LParen) {
            lemma_expression_moves(st2);
            if let Ok((condition, st3)) = parse_expression(st2) {
                if let Ok(st4) = eat(st3, Tok::RParen) {
                    lemma_statement_moves(st4);
                    if let Ok((then_branch, st5)) = parse_statement(st4) {
                        if let Ok(st6) = eat(st5, Tok::Else) {
                            lemma_statement_moves(st6);
                        }
                    }
                }
            }
        }
    }
}

/// A loop consumes at least one token.
pub proof fn lemma_while_moves(st: ParseState)
    ensures
        moves(parse_while_statement(st), st, true),
    decreases measure(st), 11nat,
{
    reveal(parse_while_statement);
    reveal(parse_expression);
    reveal(parse_statement);
    if let Ok(st1) = eat(st, Tok::While) {
        if let Ok(st2) = eat(st1, Tok::LParen) {
            lemma_expression_moves(st2);
            if let Ok((condition, st3)) = parse_expression(st2) {
                if let Ok(st4) = eat(st3, Tok::RParen) {
                    lemma_statement_moves(st4);
                }
            }
        }
    }
}

/// A block consumes at least its braces.
pub proof fn lemma_block_moves(st: ParseState)
    ensures
        moves(parse_block(st), st, true),
    decreases measure(st), 11nat,
{
    reveal(parse_block);
    reveal(parse_block_items);
    if let Ok(st1) = eat(st, Tok::LBrace) {
        lemma_block_items_moves(st1, Seq::empty());
    }
}

/// The statements of a block consume what they read.
pub proof fn lemma_block_items_moves(st: ParseState, items: Seq<Ast>)
    ensures
        moves(parse_block_items(st, items), st, false),
    decreases measure(st), 13nat,
{
    reveal(parse_block_items);
    reveal(parse_statement);
    if !(st.current is RBrace) {
        lemma_statement_moves(st);
        if let Ok((item, st1)) = parse_statement(st) {
            lemma_block_items_moves(st1, items.push(item));
        }
    }
}

/// A return statement consumes at least one token.
pub proof fn lemma_return_moves(st: ParseState)
    ensures
        moves(parse_return_statement(st), st, true),
    decreases measure(st), 11nat,
{
    reveal(parse_return_statement);
    reveal(parse_expression);
    if let Ok(st1) = eat(st, Tok::Return) {
        lemma_expression_moves(st1);
    }
}

/// The further parameters of a function consume what they read.
pub proof fn lemma_more_parameters_moves(st: ParseState, params: Seq<Seq<char>>)
    ensures
        moves(parse_more_parameters(st, params), st, false),
    decreases measure(st),
{
    reveal(parse_more_parameters);
    if let Ok(st1) = eat(st, Tok::Comma) {
        lemma_more_parameters_moves(st1, params);
        if let Tok::Identifier(name) = st1.current {
            if let Ok(st2) = eat(st1, st1.current) {
                lemma_more_parameters_moves(st2, params.push(name));
            }
        }
    }
}

/// The parameters of a function consume what they read.
pub proof fn lemma_parameters_moves(st: ParseState)
    ensures
        moves(parse_parameters(st), st, false),
{
    reveal(parse_parameters);
    if let Tok::Identifier(name) = st.current {
        if let Ok(st1) = eat(st, st.current) {
            lemma_more_parameters_moves(st1, seq![name]);
        }
    }
}

/// A function declaration consumes at least one token.
pub proof fn lemma_function_declaration_moves(st: ParseState)
    ensures
        moves(parse_function_declaration(st), st, true),
    decreases measure(st), 11nat,
{
    reveal(parse_function_declaration);
    reveal(parse_block);
    if let Ok(st1) = eat(st, Tok::Function) {
        if let Ok(st2) = eat(st1, st1.current) {
            if let Ok(st3) = eat(st2, Tok::LParen) {
                lemma_parameters_moves(st3);
                if let Ok((params, st4)) = parse_parameters(st3) {
                    if let Ok(st5) = eat(st4, Tok::RParen) {
                        lemma_block_moves(st5);
                    }
                }
            }
        }
    }
}

/// A string literal or an identifier is one token.
pub proof fn lemma_token_moves(st: ParseState, message: Seq<char>)
    ensures
        moves(parse_string(st, message), st, true),
        moves(parse_name(st, message), st, true),
{
    reveal(parse_string);
    reveal(parse_name);
}

/// An operand of an inline assembly block consumes at least one token.
pub proof fn lemma_operand_moves(st: ParseState, first: bool, message: Seq<char>)
    ensures
        moves(parse_operand(st, first, message), st, true),
{
    reveal(parse_operand);
    let st1 = if first {
        st
    } else {
        match eat(st, Tok::Comma) {
            Ok(st1) => st1,
            Err(_) => st,
        }
    };
    lemma_token_moves(st1, "expected string literal for constraint"@);
    if let Ok((constraint, st2)) = parse_string(st1, "expected string literal for constraint"@) {
        if let Ok(st3) = eat(st2, Tok::LeftBracket) {
            lemma_token_moves(st3, message);
            if let Ok((name, st4)) = parse_name(st3, message) {
                if let Ok(st5) = eat(st4, Tok::RightBracket) {
                    lemma_skip(st5);
                }
            }
        }
    }
}

/// The operands of a section consume what they read.
pub proof fn lemma_operands_moves(
    st: ParseState,
    operands: Seq<(Seq<char>, Seq<char>)>,
    message: Seq<char>,
)
    ensures
        moves(parse_operands(st, operands, message), st, false),
    decreases measure(st),
{
    reveal(parse_operands);
    if !(st.current is Colon || st.current is Semicolon) {
        lemma_operand_moves(st, operands.len() == 0, message);
        if let Ok((operand, st1)) = parse_operand(st, operands.len() == 0, message) {
            lemma_operands_moves(st1, operands.push(operand), message);
        }
    }
}

/// A clobber consumes at least one token.
pub proof fn lemma_clobber_moves(st: ParseState, first: bool)
    ensures
        moves(parse_clobber(st, first), st, true),
{
    reveal(parse_clobber);
    let st1 = if first {
        st
    } else {
        match eat(st, Tok::Comma) {
            Ok(st1) => st1,
            Err(_) => st,
        }
    };
    lemma_token_moves(st1, "expected string literal for clobber"@);
    if let Ok((clobber, st2)) = parse_string(st1, "expected string literal for clobber"@) {
        lemma_skip(st2);
    }
}

/// The clobbers consume what they read.
pub proof fn lemma_clobbers_moves(st: ParseState, clobbers: Seq<Seq<char>>)
    ensures
        moves(parse_clobbers(st, clobbers), st, false),
    decreases measure(st),
{
    reveal(parse_clobbers);
    if !(st.current is Semicolon) {
        lemma_clobber_moves(st, clobbers.len() == 0);
        if let Ok((clobber, st1)) = parse_clobber(st, clobbers.len() == 0) {
            lemma_clobbers_moves(st1, clobbers.push(clobber));
        }
    }
}

/// A section of an inline assembly block consumes what it reads.
pub proof fn lemma_section_moves(st: ParseState, message: Seq<char>)
    ensures
        moves(parse_section(st, message), st, false),
        moves(parse_clobber_section(st), st, false),
{
    reveal(parse_section);
    reveal(parse_clobber_section);
    if let Ok(st1) = eat(st, Tok::Colon) {
        lemma_operands_moves(st1, Seq::empty(), message);
        lemma_clobbers_moves(st1, Seq::empty());
    }
}

/// An inline assembly block consumes at least one token.
pub proof fn lemma_inline_asm_moves(st: ParseState)
    ensures
        moves(parse_inline_asm(st), st, true),
{
    reveal(parse_inline_asm);
    if let Ok(st1) = eat(st, Tok::Asm) {
        lemma_skip(st1);
        lemma_token_moves(skip(st1), "expected string literal for asm template"@);
        if let Ok((template, st2)) = parse_string(
            skip(st1),
            "expected string literal for asm template"@,
        ) {
            lemma_skip(st2);
            let st3 = skip(st2);
            lemma_section_moves(st3, "expected identifier for output operand"@);
            if let Ok((outputs, st4)) = parse_section(
                st3,
                "expected identifier for output operand"@,
            ) {
                lemma_section_moves(st4, "expected identifier for input operand"@);
                if let Ok((inputs, st5)) = parse_section(
                    st4,
                    "expected identifier for input operand"@,
                ) {
                    lemma_section_moves(st5, "expected identifier for input operand"@);
                }
            }
        }
    }
}

/// Whether an operator is `*` or `/`.
pub open spec fn is_multiplicative(op: BinaryOperator) -> bool {
    op == BinaryOperator::Multiply || op == BinaryOperator::Divide
}

/// Whether an operator is `+` or `-`.
pub open spec fn is_additive(op: BinaryOperator) -> bool {
    op == BinaryOperator::Add || op == BinaryOperator::Subtract
}

/// The sum so far and the operator that follows it, closed with the term
/// that follows the operator.
pub open spec fn close(sum: Option<(Ast, BinaryOperator)>, term: Ast) -> Ast {
    match sum {
        Some((left, op)) => binary(left, op, term),
        None => term,
    }
}

/// The tree of `e0 op1 e1 ... opn en` from operator `i` on, by the usual
/// rules of arithmetic: `term` is the product in progress and `sum` what
/// stands before it. `*` and `/` extend the product; `+` and `-` close it
/// into the sum and start the next one.
pub open spec fn arrange(
    operands: Seq<Ast>,
    ops: Seq<BinaryOperator>,
    i: nat,
    sum: Option<(Ast, BinaryOperator)>,
    term: Ast,
) -> Ast
    decreases ops.len() - i,
{
    if i >= ops.len() {
        close(sum, term)
    } else if is_multiplicative(ops[i as int]) {
        arrange(operands, ops, i + 1, sum, binary(term, ops[i as int], operands[i as int + 1]))
    } else {
        arrange(operands, ops, i + 1, Some((close(sum, term), ops[i as int])), operands[i as int + 1])
    }
}

/// The tree of `e0 op1 e1 ... opn en` with the standard precedence of
/// arithmetic and grouping to the left.
pub open spec fn standard(operands: Seq<Ast>, ops: Seq<BinaryOperator>) -> Ast {
    arrange(operands, ops, 0, None, operands[0])
}

/// Whether the parser meets the operands `e0 ... en`, joined by the
/// arithmetic operators `op1 ... opn` and followed by no further one:
/// operand `i` is read from the state `before[i]` up to the state
/// `after[i]`, whose current token is the next operator.
pub open spec fn is_chain(
    before: Seq<ParseState>,
    after: Seq<ParseState>,
    operands: Seq<Ast>,
    ops: Seq<BinaryOperator>,
) -> bool {
    &&& operands.len() == ops.len() + 1
    &&& before.len() == operands.len()
    &&& after.len() == operands.len()
    &&& forall|i: int|
        0 <= i < operands.len() ==> #[trigger] parse_primary(before[i]) == Ok::<
            (Ast, ParseState), Failure>((operands[i], after[i]))
    &&& forall|i: int|
        0 <= i < ops.len() ==> (is_multiplicative(#[trigger] ops[i]) && multiplicative_operator(
            after[i].current,
        ) == Some(ops[i])) || (is_additive(ops[i]) && additive_operator(after[i].current) == Some(
            ops[i],
        ))
    &&& forall|i: int|
        0 <= i < ops.len() ==> #[trigger] eat(after[i], after[i].current) == Ok::<
            ParseState, Failure>(before[i as int + 1])
    &&& multiplicative_operator(after[ops.len() as int].current) is None
    &&& additive_operator(after[ops.len() as int].current) is None
}

/// From operator `i` on, the parser arranges the chain as the usual rules do.
proof fn lemma_chain_from(
    before: Seq<ParseState>,
    after: Seq<ParseState>,
    operands: Seq<Ast>,
    ops: Seq<BinaryOperator>,
    i: nat,
    sum: Option<(Ast, BinaryOperator)>,
    term: Ast,
)
    requires
        is_chain(before, after, operands, ops),
        i <= ops.len(),
    ensures
        parse_multiplicative_rest(after[i as int], term) matches Ok((product, st))
            && parse_additive_rest(st, close(sum, product)) == Ok::<(Ast, ParseState), Failure>(
            (arrange(operands, ops, i, sum, term), after[ops.len() as int]),
        ),
    decreases ops.len() - i,
{
    reveal(parse_multiplicative_rest);
    reveal(parse_additive_rest);
    reveal(parse_multiplicative);
    reveal(parse_primary);
    let st = after[i as int];
    if i < ops.len() {
        let op = ops[i as int];
        let next = before[i as int + 1];
        assert(eat(st, st.current) == Ok::<ParseState, Failure>(next));
        assert(parse_primary(next) == Ok::<(Ast, ParseState), Failure>(
            (operands[i as int + 1], after[i as int + 1]),
        ));
        lemma_primary_moves(next);
        if is_multiplicative(op) {
            lemma_chain_from(before, after, operands, ops, i + 1, sum, binary(
                term,
                op,
                operands[i as int + 1],
            ));
        } else {
            assert(multiplicative_operator(st.current) is None);
            lemma_multiplicative_moves(next);
            lemma_chain_from(
                before,
                after,
                operands,
                ops,
                i + 1,
                Some((close(sum, term), op)),
                operands[i as int + 1],
            );
        }
    }
}

/// Precedence: for an arbitrary mix of `+`, `-`, `*` and `/` between
/// arbitrary operands, the parser builds the tree that the standard rules of
/// arithmetic give: `*` and `/` bind tighter than `+` and `-`, and operators
/// of one level group to the left.
pub proof fn lemma_precedence(
    before: Seq<ParseState>,
    after: Seq<ParseState>,
    operands: Seq<Ast>,
    ops: Seq<BinaryOperator>,
)
    requires
        is_chain(before, after, operands, ops),
    ensures
        parse_additive(before[0]) == Ok::<(Ast, ParseState), Failure>(
            (standard(operands, ops), after[ops.len() as int]),
        ),
{
    reveal(parse_additive);
    reveal(parse_multiplicative);
    reveal(parse_additive_rest);
    reveal(parse_multiplicative_rest);
    reveal(parse_primary);
    assert(parse_primary(before[0]) == Ok::<(Ast, ParseState), Failure>(
        (operands[0], after[0]),
    ));
    lemma_primary_moves(before[0]);
    lemma_multiplicative_moves(before[0]);
    lemma_chain_from(before, after, operands, ops, 0, None, operands[0]);
}

/// Assignment groups to the right: after a variable and `=`, whatever
/// assignment follows is the value, so `a = b = c` is `a = (b = c)`.
pub proof fn lemma_assignment_groups_right(
    st: ParseState,
    name: Seq<char>,
    st1: ParseState,
    st2: ParseState,
    value: Ast,
    st3: ParseState,
)
    requires
        parse_logical(st) == Ok::<(Ast, ParseState), Failure>((Ast::Variable(name), st1)),
        st1.current is Assign,
        eat(st1, Tok::Assign) == Ok::<ParseState, Failure>(st2),
        parse_assignment(st2) == Ok::<(Ast, ParseState), Failure>((value, st3)),
    ensures
        parse_assignment(st) == Ok::<(Ast, ParseState), Failure>(
            (Ast::Assignment(name, Box::new(value)), st3),
        ),
{
    reveal(parse_assignment);
    reveal(parse_logical);
    lemma_logical_moves(st);
}

} // verus!
