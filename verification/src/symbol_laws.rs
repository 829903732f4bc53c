//! The symbol contract: what the table of functions adds to the grammar.
//!
//! A parser that does not enforce the table follows the grammar alone. The
//! lemmas below compare the two, step for step: the parser that enforces the
//! table fails where the other one fails, and where the other one succeeds it
//! yields the same tree if every call in the tree names a function declared
//! before it and no function is defined a second time, and fails otherwise.

use vstd::prelude::*;
use crate::ast::Ast;
use crate::error::SpecError;
use crate::grammar::{
    additive_operator, binary, comparison_operator, logical_operator, multiplicative_operator,
    parse_additive, parse_additive_rest, parse_arguments, parse_assignment, parse_block,
    parse_block_items, parse_clobber, parse_clobber_section, parse_clobbers, parse_comparison,
    parse_comparison_rest, parse_expression, parse_function_call, parse_function_declaration,
    parse_if_statement, parse_inline_asm, parse_logical, parse_logical_rest, parse_more_parameters,
    parse_multiplicative, parse_multiplicative_rest, parse_name, parse_operand, parse_operands,
    parse_parameters, parse_primary, parse_return_statement, parse_section, parse_statement,
    parse_string, parse_while_statement,
};
use crate::grammar_laws::{
    lemma_additive_moves, lemma_clobber_moves, lemma_comparison_moves, lemma_expression_moves,
    lemma_logical_moves, lemma_multiplicative_moves, lemma_operand_moves, lemma_parameters_moves,
    lemma_primary_moves, lemma_statement_moves,
};
use crate::lexer::Tok;
use crate::parser::{first_undefined, parse_include, run, ParserView, Step};
use crate::stream::{eat, enforced, measure, relaxed, skip, Failure, ParseState, Parsed};
use crate::text::{holds, intern};

verus! {

broadcast use {crate::stream::lemma_eat_moves, crate::stream::lemma_eat_enforced};

/// The functions that are declared once a tree is parsed, given those that
/// were declared before.
pub open spec fn declares(a: Ast, declared: Seq<Seq<char>>) -> Seq<Seq<char>>
    decreases a, 0nat,
{
    match a {
        Ast::FunctionPredecl(name, _) => intern(declared, name),
        Ast::FunctionDecl(name, _, body) => intern(declares(*body, declared), name),
        Ast::Block(items) => declares_range(items, 0, items.len(), declared),
        Ast::If(_, t, e) => match e {
            Some(b) => declares(*b, declares(*t, declared)),
            None => declares(*t, declared),
        },
        Ast::While(_, b) => declares(*b, declared),
        _ => declared,
    }
}

/// The same for the statements `items[from..to]`.
pub open spec fn declares_range(
    items: Seq<Ast>,
    from: nat,
    to: nat,
    declared: Seq<Seq<char>>,
) -> Seq<Seq<char>>
    decreases items, to - from,
{
    if from >= to || to > items.len() {
        declared
    } else {
        declares_range(items, from + 1, to, declares(items[from as int], declared))
    }
}

/// The functions that are defined once a tree is parsed, given those that
/// were defined before.
pub open spec fn defines(a: Ast, defined: Seq<Seq<char>>) -> Seq<Seq<char>>
    decreases a, 0nat,
{
    match a {
        Ast::FunctionDecl(name, _, body) => intern(defines(*body, defined), name),
        Ast::Block(items) => defines_range(items, 0, items.len(), defined),
        Ast::If(_, t, e) => match e {
            Some(b) => defines(*b, defines(*t, defined)),
            None => defines(*t, defined),
        },
        Ast::While(_, b) => defines(*b, defined),
        _ => defined,
    }
}

/// The same for the statements `items[from..to]`.
pub open spec fn defines_range(
    items: Seq<Ast>,
    from: nat,
    to: nat,
    defined: Seq<Seq<char>>,
) -> Seq<Seq<char>>
    decreases items, to - from,
{
    if from >= to || to > items.len() {
        defined
    } else {
        defines_range(items, from + 1, to, defines(items[from as int], defined))
    }
}

/// Whether every call in a tree names a function that is declared where the
/// call stands, given the functions declared before the tree.
pub open spec fn calls_declared(a: Ast, declared: Seq<Seq<char>>) -> bool
    decreases a, 0nat,
{
    match a {
        Ast::FunctionCall(name, args) => holds(declared, name) && calls_declared_each(
            args,
            0,
            args.len(),
            declared,
        ),
        Ast::FunctionDecl(_, _, body) => calls_declared(*body, declared),
        Ast::Block(items) => calls_declared_range(items, 0, items.len(), declared),
        Ast::If(c, t, e) => calls_declared(*c, declared) && calls_declared(*t, declared) && match e {
            Some(b) => calls_declared(*b, declares(*t, declared)),
            None => true,
        },
        Ast::While(c, b) => calls_declared(*c, declared) && calls_declared(*b, declared),
        Ast::BinaryOp(l, _, r) => calls_declared(*l, declared) && calls_declared(*r, declared),
        Ast::Assignment(_, value) => calls_declared(*value, declared),
        Ast::ArrayIndex(array, index) => calls_declared(*array, declared) && calls_declared(
            *index,
            declared,
        ),
        Ast::ArrayAssignment(array, index, value) => calls_declared(*array, declared)
            && calls_declared(*index, declared) && calls_declared(*value, declared),
        Ast::Return(value) => match value {
            Some(b) => calls_declared(*b, declared),
            None => true,
        },
        _ => true,
    }
}

/// The same for each of the expressions `args[from..to]`.
pub open spec fn calls_declared_each(
    args: Seq<Ast>,
    from: nat,
    to: nat,
    declared: Seq<Seq<char>>,
) -> bool
    decreases args, to - from,
{
    if from >= to || to > args.len() {
        true
    } else {
        calls_declared(args[from as int], declared) && calls_declared_each(
            args,
            from + 1,
            to,
            declared,
        )
    }
}

/// The same for the statements `items[from..to]`, each with the functions
/// that the statements before it declare.
pub open spec fn calls_declared_range(
    items: Seq<Ast>,
    from: nat,
    to: nat,
    declared: Seq<Seq<char>>,
) -> bool
    decreases items, to - from,
{
    if from >= to || to > items.len() {
        true
    } else {
        calls_declared(items[from as int], declared) && calls_declared_range(
            items,
            from + 1,
            to,
            declares(items[from as int], declared),
        )
    }
}

/// Whether no definition in a tree names a function that is defined where
/// it stands, given the functions defined before the tree.
pub open spec fn defined_once(a: Ast, defined: Seq<Seq<char>>) -> bool
    decreases a, 0nat,
{
    match a {
        Ast::FunctionDecl(name, _, body) => !holds(defined, name) && defined_once(*body, defined),
        Ast::Block(items) => defined_once_range(items, 0, items.len(), defined),
        Ast::If(_, t, e) => defined_once(*t, defined) && match e {
            Some(b) => defined_once(*b, defines(*t, defined)),
            None => true,
        },
        Ast::While(_, b) => defined_once(*b, defined),
        _ => true,
    }
}

/// The same for the statements `items[from..to]`.
pub open spec fn defined_once_range(
    items: Seq<Ast>,
    from: nat,
    to: nat,
    defined: Seq<Seq<char>>,
) -> bool
    decreases items, to - from,
{
    if from >= to || to > items.len() {
        true
    } else {
        defined_once(items[from as int], defined) && defined_once_range(
            items,
            from + 1,
            to,
            defines(items[from as int], defined),
        )
    }
}

/// Whether a tree is an expression or a `return`: it declares and defines
/// nothing.
pub open spec fn plain(a: Ast) -> bool {
    !(a is FunctionPredecl || a is FunctionDecl || a is Block || a is If || a is While)
}

/// Whether the parser that enforces the table (`rs`) keeps step with the
/// one that does not (`rb`) on an expression read from the state `st`.
pub open spec fn lock_expression(rb: Parsed<Ast>, rs: Parsed<Ast>, st: ParseState) -> bool {
    match rb {
        Ok((tree, stb)) => plain(tree) && stb.declared == st.declared && stb.defined == st.defined
            && !stb.strict && if calls_declared(tree, st.declared) {
            rs == Ok::<(Ast, ParseState), Failure>((tree, enforced(stb)))
        } else {
            rs is Err
        },
        Err(_) => rs is Err,
    }
}

/// The same for the operators and operands after the operand `left`.
pub open spec fn lock_rest(rb: Parsed<Ast>, rs: Parsed<Ast>, st: ParseState, left: Ast) -> bool {
    match rb {
        Ok((tree, stb)) => plain(tree) && stb.declared == st.declared && stb.defined == st.defined
            && !stb.strict && (calls_declared(tree, st.declared) ==> calls_declared(
            left,
            st.declared,
        )) && (calls_declared(left, st.declared) ==> if calls_declared(tree, st.declared) {
            rs == Ok::<(Ast, ParseState), Failure>((tree, enforced(stb)))
        } else {
            rs is Err
        }),
        Err(_) => rs is Err,
    }
}

/// The same for the arguments of a call after `args`.
pub open spec fn lock_arguments(
    rb: Parsed<Seq<Ast>>,
    rs: Parsed<Seq<Ast>>,
    st: ParseState,
    args: Seq<Ast>,
) -> bool {
    match rb {
        Ok((list, stb)) => list.len() >= args.len() && list.subrange(0, args.len() as int) == args
            && stb.declared == st.declared && stb.defined == st.defined && !stb.strict
            && if calls_declared_each(list, args.len(), list.len(), st.declared) {
            rs == Ok::<(Seq<Ast>, ParseState), Failure>((list, enforced(stb)))
        } else {
            rs is Err
        },
        Err(_) => rs is Err,
    }
}

/// A primary expression: the two parsers keep step.
pub proof fn lemma_primary_lock(b: ParseState)
    requires
        !b.strict,
    ensures
        lock_expression(parse_primary(b), parse_primary(enforced(b)), b),
    decreases measure(b), 0nat,
{
    reveal(parse_primary);
    reveal(parse_expression);
    reveal(parse_function_call);
    let d = b.declared;
    let rb = parse_primary(b);
    let rs = parse_primary(enforced(b));
    match b.current {
        Tok::Identifier(name) => {
            match eat(b, b.current) {
                Err(_) => {},
                Ok(b1) => {
                    if b1.current is LeftBracket {
                        match eat(b1, Tok::LeftBracket) {
                            Err(_) => {},
                            Ok(b2) => {
                                lemma_expression_lock(b2);
                                match parse_expression(b2) {
                                    Err(_) => {
                                        assert(rb is Err);
                                        assert(rs is Err);
                                    },
                                    Ok((index, b3)) => {
                                        match eat(b3, Tok::RightBracket) {
                                            Err(_) => {
                                                assert(rb is Err);
                                                assert(rs is Err);
                                            },
                                            Ok(b4) => {
                                                let tree = Ast::ArrayIndex(
                                                    Box::new(Ast::Variable(name)),
                                                    Box::new(index),
                                                );
                                                assert(rb == Ok::<(Ast, ParseState), Failure>(
                                                    (tree, b4),
                                                ));
                                                assert(calls_declared(Ast::Variable(name), d));
                                                assert(calls_declared(tree, d) == calls_declared(
                                                    index,
                                                    d,
                                                ));
                                            },
                                        }
                                    },
                                }
                            },
                        }
                    } else if b1.current is LParen {
                        lemma_function_call_lock(b1, name);
                        assert(rb == parse_function_call(b1, name));
                        assert(rs == parse_function_call(enforced(b1), name));
                    } else {
                        assert(rb == Ok::<(Ast, ParseState), Failure>((Ast::Variable(name), b1)));
                        assert(calls_declared(Ast::Variable(name), d));
                    }
                },
            }
        },
        Tok::LParen => {
            match eat(b, Tok::LParen) {
                Err(_) => {},
                Ok(b1) => {
                    lemma_expression_lock(b1);
                    match parse_expression(b1) {
                        Err(_) => {
                            assert(rb is Err);
                            assert(rs is Err);
                        },
                        Ok((expr, b2)) => {
                            match eat(b2, Tok::RParen) {
                                Err(_) => {
                                    assert(rb is Err);
                                    assert(rs is Err);
                                },
                                Ok(b3) => {
                                    assert(rb == Ok::<(Ast, ParseState), Failure>((expr, b3)));
                                },
                            }
                        },
                    }
                },
            }
        },
        Tok::Number(n) => {
            assert(calls_declared(Ast::Number(n), d));
        },
        Tok::StringLiteral(text) => {
            assert(calls_declared(Ast::StringLiteral(text), d));
        },
        _ => {},
    }
}

/// A call: the parser that enforces the table asks for the function to be
/// declared, and otherwise the two keep step.
pub proof fn lemma_function_call_lock(b: ParseState, name: Seq<char>)
    requires
        !b.strict,
    ensures
        lock_expression(parse_function_call(b, name), parse_function_call(enforced(b), name), b),
    decreases measure(b), 0nat,
{
    reveal(parse_function_call);
    reveal(parse_expression);
    reveal(parse_arguments);
    let d = b.declared;
    let rb = parse_function_call(b, name);
    let rs = parse_function_call(enforced(b), name);
    match eat(b, Tok::LParen) {
        Err(_) => {},
        Ok(b1) => {
            if b1.current is RParen {
                match eat(b1, Tok::RParen) {
                    Err(_) => {},
                    Ok(b4) => {
                        let tree = Ast::FunctionCall(name, Seq::empty());
                        assert(rb == Ok::<(Ast, ParseState), Failure>((tree, b4)));
                        assert(calls_declared_each(Seq::<Ast>::empty(), 0, 0, d));
                        assert(calls_declared(tree, d) == holds(d, name));
                    },
                }
            } else {
                lemma_expression_lock(b1);
                lemma_expression_moves(b1);
                lemma_expression_moves(enforced(b1));
                match parse_expression(b1) {
                    Err(_) => {
                        assert(rb is Err);
                        assert(rs is Err);
                    },
                    Ok((first, b2)) => {
                        lemma_arguments_lock(b2, seq![first]);
                        match parse_arguments(b2, seq![first]) {
                            Err(_) => {
                                assert(rb is Err);
                                assert(rs is Err);
                            },
                            Ok((list, b3)) => {
                                assert(list.subrange(0, 1)[0] == list[0]);
                                assert(calls_declared_each(list, 0, list.len(), d) == (
                                calls_declared(first, d) && calls_declared_each(
                                    list,
                                    1,
                                    list.len(),
                                    d,
                                )));
                                match eat(b3, Tok::RParen) {
                                    Err(_) => {
                                        assert(rb is Err);
                                        assert(rs is Err);
                                    },
                                    Ok(b4) => {
                                        let tree = Ast::FunctionCall(name, list);
                                        assert(rb == Ok::<(Ast, ParseState), Failure>(
                                            (tree, b4),
                                        ));
                                        assert(calls_declared(tree, d) == (holds(d, name)
                                            && calls_declared_each(list, 0, list.len(), d)));
                                        if !holds(d, name) {
                                            assert(rs is Err);
                                        } else if !calls_declared(first, d) {
                                            assert(parse_expression(enforced(b1)) is Err);
                                            assert(rs is Err);
                                        } else if !calls_declared_each(list, 1, list.len(), d) {
                                            assert(parse_arguments(enforced(b2), seq![first]) is Err);
                                            assert(rs is Err);
                                        } else {
                                            assert(rs == Ok::<(Ast, ParseState), Failure>(
                                                (tree, enforced(b4)),
                                            ));
                                        }
                                    },
                                }
                            },
                        }
                    },
                }
            }
        },
    }
}

/// The further arguments of a call: the two parsers keep step.
pub proof fn lemma_arguments_lock(b: ParseState, args: Seq<Ast>)
    requires
        !b.strict,
    ensures
        lock_arguments(parse_arguments(b, args), parse_arguments(enforced(b), args), b, args),
    decreases measure(b), 0nat,
{
    reveal(parse_arguments);
    reveal(parse_expression);
    if b.current is Comma {
        if let Ok(b1) = eat(b, Tok::Comma) {
            lemma_expression_lock(b1);
            lemma_expression_moves(b1);
            lemma_expression_moves(enforced(b1));
            if let Ok((arg, b2)) = parse_expression(b1) {
                lemma_arguments_lock(b2, args.push(arg));
                if let Ok((list, b3)) = parse_arguments(b2, args.push(arg)) {
                    let n = args.len();
                    assert(list.subrange(0, n as int + 1)[n as int] == list[n as int]);
                    assert(list.subrange(0, n as int) =~= list.subrange(0, n as int + 1).subrange(
                        0,
                        n as int,
                    ));
                    assert(args.push(arg).subrange(0, n as int) =~= args);
                    assert(calls_declared_each(list, n, list.len(), b.declared) == (calls_declared(
                        arg,
                        b.declared,
                    ) && calls_declared_each(list, n + 1, list.len(), b.declared)));
                }
            }
        }
    } else {
        assert(args.subrange(0, args.len() as int) =~= args);
    }
}

/// An expression of this level: the two parsers keep step.
pub proof fn lemma_multiplicative_lock(b: ParseState)
    requires
        !b.strict,
    ensures
        lock_expression(parse_multiplicative(b), parse_multiplicative(enforced(b)), b),
    decreases measure(b), 2nat,
{
    reveal(parse_multiplicative);
    reveal(parse_primary);
    reveal(parse_multiplicative_rest);
    lemma_primary_lock(b);
    lemma_primary_moves(b);
    lemma_primary_moves(enforced(b));
    if let Ok((left, b1)) = parse_primary(b) {
        lemma_multiplicative_rest_lock(b1, left);
    }
}

/// The operators of this level and their operands: the two parsers keep step.
pub proof fn lemma_multiplicative_rest_lock(b: ParseState, left: Ast)
    requires
        !b.strict,
        plain(left),
    ensures
        lock_rest(
            parse_multiplicative_rest(b, left),
            parse_multiplicative_rest(enforced(b), left),
            b,
            left,
        ),
    decreases measure(b), 1nat,
{
    reveal(parse_multiplicative_rest);
    reveal(parse_primary);
    if let Some(op) = multiplicative_operator(b.current) {
        if let Ok(b1) = eat(b, b.current) {
            lemma_primary_lock(b1);
            lemma_primary_moves(b1);
            lemma_primary_moves(enforced(b1));
            if let Ok((right, b2)) = parse_primary(b1) {
                lemma_multiplicative_rest_lock(b2, binary(left, op, right));
            }
        }
    }
}

/// An expression of this level: the two parsers keep step.
pub proof fn lemma_additive_lock(b: ParseState)
    requires
        !b.strict,
    ensures
        lock_expression(parse_additive(b), parse_additive(enforced(b)), b),
    decreases measure(b), 4nat,
{
    reveal(parse_additive);
    reveal(parse_multiplicative);
    reveal(parse_additive_rest);
    lemma_multiplicative_lock(b);
    lemma_multiplicative_moves(b);
    lemma_multiplicative_moves(enforced(b));
    if let Ok((left, b1)) = parse_multiplicative(b) {
        lemma_additive_rest_lock(b1, left);
    }
}

/// The operators of this level and their operands: the two parsers keep step.
pub proof fn lemma_additive_rest_lock(b: ParseState, left: Ast)
    requires
        !b.strict,
        plain(left),
    ensures
        lock_rest(
            parse_additive_rest(b, left),
            parse_additive_rest(enforced(b), left),
            b,
            left,
        ),
    decreases measure(b), 3nat,
{
    reveal(parse_additive_rest);
    reveal(parse_multiplicative);
    if let Some(op) = additive_operator(b.current) {
        if let Ok(b1) = eat(b, b.current) {
            lemma_multiplicative_lock(b1);
            lemma_multiplicative_moves(b1);
            lemma_multiplicative_moves(enforced(b1));
            if let Ok((right, b2)) = parse_multiplicative(b1) {
                lemma_additive_rest_lock(b2, binary(left, op, right));
            }
        }
    }
}

/// An expression of this level: the two parsers keep step.
pub proof fn lemma_comparison_lock(b: ParseState)
    requires
        !b.strict,
    ensures
        lock_expression(parse_comparison(b), parse_comparison(enforced(b)), b),
    decreases measure(b), 6nat,
{
    reveal(parse_comparison);
    reveal(parse_additive);
    reveal(parse_comparison_rest);
    lemma_additive_lock(b);
    lemma_additive_moves(b);
    lemma_additive_moves(enforced(b));
    if let Ok((left, b1)) = parse_additive(b) {
        lemma_comparison_rest_lock(b1, left);
    }
}

/// The operators of this level and their operands: the two parsers keep step.
pub proof fn lemma_comparison_rest_lock(b: ParseState, left: Ast)
    requires
        !b.strict,
        plain(left),
    ensures
        lock_rest(
            parse_comparison_rest(b, left),
            parse_comparison_rest(enforced(b), left),
            b,
            left,
        ),
    decreases measure(b), 5nat,
{
    reveal(parse_comparison_rest);
    reveal(parse_additive);
    if let Some(op) = comparison_operator(b.current) {
        if let Ok(b1) = eat(b, b.current) {
            lemma_additive_lock(b1);
            lemma_additive_moves(b1);
            lemma_additive_moves(enforced(b1));
            if let Ok((right, b2)) = parse_additive(b1) {
                lemma_comparison_rest_lock(b2, binary(left, op, right));
            }
        }
    }
}

/// An expression of this level: the two parsers keep step.
pub proof fn lemma_logical_lock(b: ParseState)
    requires
        !b.strict,
    ensures
        lock_expression(parse_logical(b), parse_logical(enforced(b)), b),
    decreases measure(b), 8nat,
{
    reveal(parse_logical);
    reveal(parse_comparison);
    reveal(parse_logical_rest);
    lemma_comparison_lock(b);
    lemma_comparison_moves(b);
    lemma_comparison_moves(enforced(b));
    if let Ok((left, b1)) = parse_comparison(b) {
        lemma_logical_rest_lock(b1, left);
    }
}

/// The operators of this level and their operands: the two parsers keep step.
pub proof fn lemma_logical_rest_lock(b: ParseState, left: Ast)
    requires
        !b.strict,
        plain(left),
    ensures
        lock_rest(
            parse_logical_rest(b, left),
            parse_logical_rest(enforced(b), left),
            b,
            left,
        ),
    decreases measure(b), 7nat,
{
    reveal(parse_logical_rest);
    reveal(parse_comparison);
    if let Some(op) = logical_operator(b.current) {
        if let Ok(b1) = eat(b, b.current) {
            lemma_comparison_lock(b1);
            lemma_comparison_moves(b1);
            lemma_comparison_moves(enforced(b1));
            if let Ok((right, b2)) = parse_comparison(b1) {
                lemma_logical_rest_lock(b2, binary(left, op, right));
            }
        }
    }
}

/// An assignment: the two parsers keep step.
pub proof fn lemma_assignment_lock(b: ParseState)
    requires
        !b.strict,
    ensures
        lock_expression(parse_assignment(b), parse_assignment(enforced(b)), b),
    decreases measure(b), 9nat,
{
    reveal(parse_assignment);
    reveal(parse_logical);
    lemma_logical_lock(b);
    lemma_logical_moves(b);
    lemma_logical_moves(enforced(b));
    if let Ok((expr, b1)) = parse_logical(b) {
        if let Ok(b2) = eat(b1, Tok::Assign) {
            lemma_assignment_lock(b2);
        }
    }
}

/// An expression: the two parsers keep step.
pub proof fn lemma_expression_lock(b: ParseState)
    requires
        !b.strict,
    ensures
        lock_expression(parse_expression(b), parse_expression(enforced(b)), b),
    decreases measure(b), 10nat,
{
    reveal(parse_expression);
    reveal(parse_assignment);
    lemma_assignment_lock(b);
}

/// Whether the two parsers keep step on a part of the grammar that does not
/// look at the table.
pub open spec fn lock_blind<T>(rb: Parsed<T>, rs: Parsed<T>, b: ParseState) -> bool {
    match rb {
        Ok((value, stb)) => stb.declared == b.declared && stb.defined == b.defined && !stb.strict
            && rs == Ok::<(T, ParseState), Failure>((value, enforced(stb))),
        Err(_) => rs is Err,
    }
}

/// Whether the two parsers keep step on a statement read from the state `b`.
pub open spec fn lock_statement(rb: Parsed<Ast>, rs: Parsed<Ast>, b: ParseState) -> bool {
    match rb {
        Ok((tree, stb)) => !stb.strict && stb.declared == declares(tree, b.declared) && stb.defined
            == defines(tree, b.defined) && if calls_declared(tree, b.declared) && defined_once(
            tree,
            b.defined,
        ) {
            rs == Ok::<(Ast, ParseState), Failure>((tree, enforced(stb)))
        } else {
            rs is Err
        },
        Err(_) => rs is Err,
    }
}

/// The same for the statements of a block after `items`.
pub open spec fn lock_items(
    rb: Parsed<Seq<Ast>>,
    rs: Parsed<Seq<Ast>>,
    b: ParseState,
    items: Seq<Ast>,
) -> bool {
    match rb {
        Ok((list, stb)) => list.len() >= items.len() && list.subrange(0, items.len() as int)
            == items && !stb.strict && stb.declared == declares_range(
            list,
            items.len(),
            list.len(),
            b.declared,
        ) && stb.defined == defines_range(list, items.len(), list.len(), b.defined)
            && if calls_declared_range(list, items.len(), list.len(), b.declared)
            && defined_once_range(list, items.len(), list.len(), b.defined) {
            rs == Ok::<(Seq<Ast>, ParseState), Failure>((list, enforced(stb)))
        } else {
            rs is Err
        },
        Err(_) => rs is Err,
    }
}

/// An expression is a statement that declares and defines nothing.
pub proof fn lemma_plain(tree: Ast, declared: Seq<Seq<char>>, defined: Seq<Seq<char>>)
    requires
        plain(tree),
    ensures
        declares(tree, declared) == declared,
        defines(tree, defined) == defined,
        defined_once(tree, defined),
{
}

/// String literals and identifiers: the two parsers keep step.
pub proof fn lemma_token_blind(b: ParseState, message: Seq<char>)
    requires
        !b.strict,
    ensures
        lock_blind(parse_string(b, message), parse_string(enforced(b), message), b),
        lock_blind(parse_name(b, message), parse_name(enforced(b), message), b),
{
    reveal(parse_string);
    reveal(parse_name);
}

/// The parameters of a function: the two parsers keep step.
pub proof fn lemma_more_parameters_blind(b: ParseState, params: Seq<Seq<char>>)
    requires
        !b.strict,
    ensures
        lock_blind(
            parse_more_parameters(b, params),
            parse_more_parameters(enforced(b), params),
            b,
        ),
    decreases measure(b),
{
    reveal(parse_more_parameters);
    if let Ok(b1) = eat(b, Tok::Comma) {
        lemma_more_parameters_blind(b1, params);
        if let Tok::Identifier(name) = b1.current {
            if let Ok(b2) = eat(b1, b1.current) {
                lemma_more_parameters_blind(b2, params.push(name));
            }
        }
    }
}

/// The parameters of a function: the two parsers keep step.
pub proof fn lemma_parameters_blind(b: ParseState)
    requires
        !b.strict,
    ensures
        lock_blind(parse_parameters(b), parse_parameters(enforced(b)), b),
{
    reveal(parse_parameters);
    if let Tok::Identifier(name) = b.current {
        if let Ok(b1) = eat(b, b.current) {
            lemma_more_parameters_blind(b1, seq![name]);
        }
    }
}

/// An operand of an inline assembly block: the two parsers keep step.
pub proof fn lemma_operand_blind(b: ParseState, first: bool, message: Seq<char>)
    requires
        !b.strict,
    ensures
        lock_blind(parse_operand(b, first, message), parse_operand(enforced(b), first, message), b),
{
    reveal(parse_operand);
    let b1 = if first {
        b
    } else {
        match eat(b, Tok::Comma) {
            Ok(b1) => b1,
            Err(_) => b,
        }
    };
    lemma_token_blind(b1, "expected string literal for constraint"@);
    if let Ok((constraint, b2)) = parse_string(b1, "expected string literal for constraint"@) {
        if let Ok(b3) = eat(b2, Tok::LeftBracket) {
            lemma_token_blind(b3, message);
            if let Ok((name, b4)) = parse_name(b3, message) {
                if let Ok(b5) = eat(b4, Tok::RightBracket) {
                    assert(skip(enforced(b5)) == enforced(skip(b5)));
                }
            }
        }
    }
}

/// The operands of a section: the two parsers keep step.
pub proof fn lemma_operands_blind(
    b: ParseState,
    operands: Seq<(Seq<char>, Seq<char>)>,
    message: Seq<char>,
)
    requires
        !b.strict,
    ensures
        lock_blind(
            parse_operands(b, operands, message),
            parse_operands(enforced(b), operands, message),
            b,
        ),
    decreases measure(b),
{
    reveal(parse_operands);
    if !(b.current is Colon || b.current is Semicolon) {
        lemma_operand_blind(b, operands.len() == 0, message);
        lemma_operand_moves(b, operands.len() == 0, message);
        lemma_operand_moves(enforced(b), operands.len() == 0, message);
        if let Ok((operand, b1)) = parse_operand(b, operands.len() == 0, message) {
            lemma_operands_blind(b1, operands.push(operand), message);
        }
    }
}

/// A clobber: the two parsers keep step.
pub proof fn lemma_clobber_blind(b: ParseState, first: bool)
    requires
        !b.strict,
    ensures
        lock_blind(parse_clobber(b, first), parse_clobber(enforced(b), first), b),
{
    reveal(parse_clobber);
    let b1 = if first {
        b
    } else {
        match eat(b, Tok::Comma) {
            Ok(b1) => b1,
            Err(_) => b,
        }
    };
    lemma_token_blind(b1, "expected string literal for clobber"@);
    if let Ok((clobber, b2)) = parse_string(b1, "expected string literal for clobber"@) {
        assert(skip(enforced(b2)) == enforced(skip(b2)));
    }
}

/// The clobbers: the two parsers keep step.
pub proof fn lemma_clobbers_blind(b: ParseState, clobbers: Seq<Seq<char>>)
    requires
        !b.strict,
    ensures
        lock_blind(parse_clobbers(b, clobbers), parse_clobbers(enforced(b), clobbers), b),
    decreases measure(b),
{
    reveal(parse_clobbers);
    if !(b.current is Semicolon) {
        lemma_clobber_blind(b, clobbers.len() == 0);
        lemma_clobber_moves(b, clobbers.len() == 0);
        lemma_clobber_moves(enforced(b), clobbers.len() == 0);
        if let Ok((clobber, b1)) = parse_clobber(b, clobbers.len() == 0) {
            lemma_clobbers_blind(b1, clobbers.push(clobber));
        }
    }
}

/// The sections of an inline assembly block: the two parsers keep step.
pub proof fn lemma_section_blind(b: ParseState, message: Seq<char>)
    requires
        !b.strict,
    ensures
        lock_blind(parse_section(b, message), parse_section(enforced(b), message), b),
        lock_blind(parse_clobber_section(b), parse_clobber_section(enforced(b)), b),
{
    reveal(parse_section);
    reveal(parse_clobber_section);
    if let Ok(b1) = eat(b, Tok::Colon) {
        lemma_operands_blind(b1, Seq::empty(), message);
        lemma_clobbers_blind(b1, Seq::empty());
    }
}

/// An inline assembly block: the two parsers keep step.
pub proof fn lemma_inline_asm_blind(b: ParseState)
    requires
        !b.strict,
    ensures
        lock_blind(parse_inline_asm(b), parse_inline_asm(enforced(b)), b),
        parse_inline_asm(b) matches Ok((tree, _)) ==> tree is InlineAsm,
{
    reveal(parse_inline_asm);
    if let Ok(b1) = eat(b, Tok::Asm) {
        assert(skip(enforced(b1)) == enforced(skip(b1)));
        lemma_token_blind(skip(b1), "expected string literal for asm template"@);
        if let Ok((template, b2)) = parse_string(
            skip(b1),
            "expected string literal for asm template"@,
        ) {
            assert(skip(enforced(b2)) == enforced(skip(b2)));
            let b3 = skip(b2);
            lemma_section_blind(b3, "expected identifier for output operand"@);
            if let Ok((outputs, b4)) = parse_section(
                b3,
                "expected identifier for output operand"@,
            ) {
                lemma_section_blind(b4, "expected identifier for input operand"@);
                if let Ok((inputs, b5)) = parse_section(
                    b4,
                    "expected identifier for input operand"@,
                ) {
                    lemma_section_blind(b5, "expected identifier for input operand"@);
                }
            }
        }
    }
}

/// A statement: the two parsers keep step.
pub proof fn lemma_statement_lock(b: ParseState)
    requires
        !b.strict,
    ensures
        lock_statement(parse_statement(b), parse_statement(enforced(b)), b),
    decreases measure(b), 12nat,
{
    reveal(parse_statement);
    reveal(parse_function_declaration);
    reveal(parse_return_statement);
    reveal(parse_if_statement);
    reveal(parse_while_statement);
    reveal(parse_block);
    reveal(parse_expression);
    let d = b.declared;
    let f = b.defined;
    let rb = parse_statement(b);
    let rs = parse_statement(enforced(b));
    match b.current {
        Tok::Function => {
            lemma_function_declaration_lock(b);
        },
        Tok::Return => {
            lemma_return_lock(b);
        },
        Tok::If => {
            lemma_if_lock(b);
        },
        Tok::While => {
            lemma_while_lock(b);
        },
        Tok::LBrace => {
            lemma_block_lock(b);
        },
        Tok::Asm => {
            lemma_inline_asm_blind(b);
            if let Ok((tree, b1)) = parse_inline_asm(b) {
                lemma_plain(tree, d, f);
                assert(calls_declared(tree, d));
            }
        },
        _ => {
            lemma_expression_lock(b);
            match parse_expression(b) {
                Err(_) => {
                    assert(rb is Err);
                    assert(rs is Err);
                },
                Ok((tree, b1)) => {
                    lemma_plain(tree, d, f);
                    match eat(b1, Tok::Semicolon) {
                        Err(_) => {
                            assert(rb is Err);
                            assert(rs is Err);
                        },
                        Ok(b2) => {
                            assert(rb == Ok::<(Ast, ParseState), Failure>((tree, b2)));
                        },
                    }
                },
            }
        },
    }
}

/// A `return`: the two parsers keep step.
pub proof fn lemma_return_lock(b: ParseState)
    requires
        !b.strict,
    ensures
        lock_statement(parse_return_statement(b), parse_return_statement(enforced(b)), b),
    decreases measure(b), 11nat,
{
    reveal(parse_return_statement);
    reveal(parse_expression);
    let d = b.declared;
    let f = b.defined;
    let rb = parse_return_statement(b);
    let rs = parse_return_statement(enforced(b));
    match eat(b, Tok::Return) {
        Err(_) => {},
        Ok(b1) => {
            if b1.current is Semicolon {
                match eat(b1, Tok::Semicolon) {
                    Err(_) => {},
                    Ok(b2) => {
                        let tree = Ast::Return(None);
                        assert(rb == Ok::<(Ast, ParseState), Failure>((tree, b2)));
                        lemma_plain(tree, d, f);
                        assert(calls_declared(tree, d));
                    },
                }
            } else {
                lemma_expression_lock(b1);
                match parse_expression(b1) {
                    Err(_) => {
                        assert(rb is Err);
                        assert(rs is Err);
                    },
                    Ok((value, b2)) => {
                        match eat(b2, Tok::Semicolon) {
                            Err(_) => {
                                assert(rb is Err);
                                assert(rs is Err);
                            },
                            Ok(b3) => {
                                let tree = Ast::Return(Some(Box::new(value)));
                                assert(rb == Ok::<(Ast, ParseState), Failure>((tree, b3)));
                                lemma_plain(tree, d, f);
                                assert(calls_declared(tree, d) == calls_declared(value, d));
                            },
                        }
                    },
                }
            }
        },
    }
}

/// A conditional: the two parsers keep step.
pub proof fn lemma_if_lock(b: ParseState)
    requires
        !b.strict,
    ensures
        lock_statement(parse_if_statement(b), parse_if_statement(enforced(b)), b),
    decreases measure(b), 11nat,
{
    reveal(parse_if_statement);
    reveal(parse_expression);
    reveal(parse_statement);
    let d = b.declared;
    let f = b.defined;
    let rb = parse_if_statement(b);
    let rs = parse_if_statement(enforced(b));
    if let Ok(b1) = eat(b, Tok::If) {
        if let Ok(b2) = eat(b1, Tok::LParen) {
            lemma_expression_lock(b2);
            lemma_expression_moves(b2);
            lemma_expression_moves(enforced(b2));
            match parse_expression(b2) {
                Err(_) => {
                    assert(rb is Err);
                    assert(rs is Err);
                },
                Ok((condition, b3)) => {
                    match eat(b3, Tok::RParen) {
                        Err(_) => {
                            assert(rb is Err);
                            assert(rs is Err);
                        },
                        Ok(b4) => {
                            lemma_statement_lock(b4);
                            lemma_statement_moves(b4);
                            lemma_statement_moves(enforced(b4));
                            match parse_statement(b4) {
                                Err(_) => {
                                    assert(rb is Err);
                                    assert(rs is Err);
                                },
                                Ok((then_branch, b5)) => {
                                    if b5.current is Else {
                                        match eat(b5, Tok::Else) {
                                            Err(_) => {
                                                assert(rb is Err);
                                                assert(rs is Err);
                                            },
                                            Ok(b6) => {
                                                lemma_statement_lock(b6);
                                                match parse_statement(b6) {
                                                    Err(_) => {
                                                        assert(rb is Err);
                                                        assert(rs is Err);
                                                    },
                                                    Ok((else_branch, b7)) => {
                                                        let tree = Ast::If(
                                                            Box::new(condition),
                                                            Box::new(then_branch),
                                                            Some(Box::new(else_branch)),
                                                        );
                                                        assert(rb == Ok::<
                                                            (Ast, ParseState), Failure>((tree, b7)));
                                                        assert(declares(tree, d) == declares(
                                                            else_branch,
                                                            declares(then_branch, d),
                                                        ));
                                                        assert(defines(tree, f) == defines(
                                                            else_branch,
                                                            defines(then_branch, f),
                                                        ));
                                                        assert(calls_declared(tree, d) == (
                                                        calls_declared(condition, d)
                                                            && calls_declared(then_branch, d)
                                                            && calls_declared(
                                                            else_branch,
                                                            declares(then_branch, d),
                                                        )));
                                                        assert(defined_once(tree, f) == (
                                                        defined_once(then_branch, f)
                                                            && defined_once(
                                                            else_branch,
                                                            defines(then_branch, f),
                                                        )));
                                                    },
                                                }
                                            },
                                        }
                                    } else {
                                        let tree = Ast::If(
                                            Box::new(condition),
                                            Box::new(then_branch),
                                            None,
                                        );
                                        assert(rb == Ok::<(Ast, ParseState), Failure>(
                                            (tree, b5),
                                        ));
                                        assert(declares(tree, d) == declares(then_branch, d));
                                        assert(defines(tree, f) == defines(then_branch, f));
                                        assert(calls_declared(tree, d) == (calls_declared(
                                            condition,
                                            d,
                                        ) && calls_declared(then_branch, d)));
                                        assert(defined_once(tree, f) == defined_once(
                                            then_branch,
                                            f,
                                        ));
                                    }
                                },
                            }
                        },
                    }
                },
            }
        }
    }
}

/// A loop: the two parsers keep step.
pub proof fn lemma_while_lock(b: ParseState)
    requires
        !b.strict,
    ensures
        lock_statement(parse_while_statement(b), parse_while_statement(enforced(b)), b),
    decreases measure(b), 11nat,
{
    reveal(parse_while_statement);
    reveal(parse_expression);
    reveal(parse_statement);
    let d = b.declared;
    let f = b.defined;
    let rb = parse_while_statement(b);
    let rs = parse_while_statement(enforced(b));
    if let Ok(b1) = eat(b, Tok::While) {
        if let Ok(b2) = eat(b1, Tok::LParen) {
            lemma_expression_lock(b2);
            lemma_expression_moves(b2);
            lemma_expression_moves(enforced(b2));
            match parse_expression(b2) {
                Err(_) => {
                    assert(rb is Err);
                    assert(rs is Err);
                },
                Ok((condition, b3)) => {
                    match eat(b3, Tok::RParen) {
                        Err(_) => {
                            assert(rb is Err);
                            assert(rs is Err);
                        },
                        Ok(b4) => {
                            lemma_statement_lock(b4);
                            match parse_statement(b4) {
                                Err(_) => {
                                    assert(rb is Err);
                                    assert(rs is Err);
                                },
                                Ok((body, b5)) => {
                                    let tree = Ast::While(Box::new(condition), Box::new(body));
                                    assert(rb == Ok::<(Ast, ParseState), Failure>((tree, b5)));
                                    assert(declares(tree, d) == declares(body, d));
                                    assert(defines(tree, f) == defines(body, f));
                                    assert(calls_declared(tree, d) == (calls_declared(
                                        condition,
                                        d,
                                    ) && calls_declared(body, d)));
                                    assert(defined_once(tree, f) == defined_once(body, f));
                                },
                            }
                        },
                    }
                },
            }
        }
    }
}

/// A block: the two parsers keep step.
pub proof fn lemma_block_lock(b: ParseState)
    requires
        !b.strict,
    ensures
        lock_statement(parse_block(b), parse_block(enforced(b)), b),
    decreases measure(b), 11nat,
{
    reveal(parse_block);
    reveal(parse_block_items);
    let d = b.declared;
    let f = b.defined;
    let rb = parse_block(b);
    let rs = parse_block(enforced(b));
    if let Ok(b1) = eat(b, Tok::LBrace) {
        lemma_block_items_lock(b1, Seq::empty());
        match parse_block_items(b1, Seq::empty()) {
            Err(_) => {
                assert(rb is Err);
                assert(rs is Err);
            },
            Ok((items, b2)) => {
                match eat(b2, Tok::RBrace) {
                    Err(_) => {
                        assert(rb is Err);
                        assert(rs is Err);
                    },
                    Ok(b3) => {
                        let tree = Ast::Block(items);
                        assert(rb == Ok::<(Ast, ParseState), Failure>((tree, b3)));
                        assert(declares(tree, d) == declares_range(items, 0, items.len(), d));
                        assert(defines(tree, f) == defines_range(items, 0, items.len(), f));
                        assert(calls_declared(tree, d) == calls_declared_range(
                            items,
                            0,
                            items.len(),
                            d,
                        ));
                        assert(defined_once(tree, f) == defined_once_range(
                            items,
                            0,
                            items.len(),
                            f,
                        ));
                    },
                }
            },
        }
    }
}

/// The statements of a block: the two parsers keep step.
pub proof fn lemma_block_items_lock(b: ParseState, items: Seq<Ast>)
    requires
        !b.strict,
    ensures
        lock_items(parse_block_items(b, items), parse_block_items(enforced(b), items), b, items),
    decreases measure(b), 13nat,
{
    reveal(parse_block_items);
    reveal(parse_statement);
    let d = b.declared;
    let f = b.defined;
    let n = items.len();
    let rb = parse_block_items(b, items);
    let rs = parse_block_items(enforced(b), items);
    if b.current is RBrace {
        assert(items.subrange(0, n as int) =~= items);
        assert(declares_range(items, n, n, d) == d);
        assert(defines_range(items, n, n, f) == f);
        assert(calls_declared_range(items, n, n, d));
        assert(defined_once_range(items, n, n, f));
    } else {
        lemma_statement_lock(b);
        lemma_statement_moves(b);
        lemma_statement_moves(enforced(b));
        match parse_statement(b) {
            Err(_) => {
                assert(rb is Err);
                assert(rs is Err);
            },
            Ok((item, b1)) => {
                lemma_block_items_lock(b1, items.push(item));
                match parse_block_items(b1, items.push(item)) {
                    Err(_) => {
                        assert(rb is Err);
                        assert(rs is Err);
                    },
                    Ok((list, b2)) => {
                        let m = list.len();
                        assert(rb == Ok::<(Seq<Ast>, ParseState), Failure>((list, b2)));
                        assert(list.subrange(0, n as int + 1)[n as int] == list[n as int]);
                        assert(list[n as int] == item);
                        assert(list.subrange(0, n as int) =~= list.subrange(
                            0,
                            n as int + 1,
                        ).subrange(0, n as int));
                        assert(items.push(item).subrange(0, n as int) =~= items);
                        assert(declares_range(list, n, m, d) == declares_range(
                            list,
                            n + 1,
                            m,
                            declares(item, d),
                        ));
                        assert(defines_range(list, n, m, f) == defines_range(
                            list,
                            n + 1,
                            m,
                            defines(item, f),
                        ));
                        assert(calls_declared_range(list, n, m, d) == (calls_declared(item, d)
                            && calls_declared_range(list, n + 1, m, declares(item, d))));
                        assert(defined_once_range(list, n, m, f) == (defined_once(item, f)
                            && defined_once_range(list, n + 1, m, defines(item, f))));
                    },
                }
            },
        }
    }
}

/// A function declaration: the parser that enforces the table refuses a
/// name that is defined, and otherwise the two keep step.
pub proof fn lemma_function_declaration_lock(b: ParseState)
    requires
        !b.strict,
    ensures
        lock_statement(
            parse_function_declaration(b),
            parse_function_declaration(enforced(b)),
            b,
        ),
    decreases measure(b), 11nat,
{
    reveal(parse_function_declaration);
    reveal(parse_block);
    let d = b.declared;
    let f = b.defined;
    let rb = parse_function_declaration(b);
    let rs = parse_function_declaration(enforced(b));
    if let Ok(b1) = eat(b, Tok::Function) {
        if let Tok::Identifier(name) = b1.current {
            if let Ok(b2) = eat(b1, b1.current) {
                if let Ok(b3) = eat(b2, Tok::LParen) {
                    lemma_parameters_blind(b3);
                    lemma_parameters_moves(b3);
                    lemma_parameters_moves(enforced(b3));
                    match parse_parameters(b3) {
                        Err(_) => {
                            assert(rb is Err);
                            assert(rs is Err);
                        },
                        Ok((params, b4)) => {
                            match eat(b4, Tok::RParen) {
                                Err(_) => {
                                    assert(rb is Err);
                                    assert(rs is Err);
                                },
                                Ok(b5) => {
                                    if b5.current is Semicolon {
                                        match eat(b5, Tok::Semicolon) {
                                            Err(_) => {
                                                assert(rb is Err);
                                                assert(rs is Err);
                                            },
                                            Ok(b6) => {
                                                let tree = Ast::FunctionPredecl(name, params);
                                                let b7 = ParseState {
                                                    declared: intern(b6.declared, name),
                                                    ..b6
                                                };
                                                assert(rb == Ok::<(Ast, ParseState), Failure>(
                                                    (tree, b7),
                                                ));
                                                assert(declares(tree, d) == intern(d, name));
                                                assert(defines(tree, f) == f);
                                                assert(calls_declared(tree, d));
                                                assert(defined_once(tree, f));
                                            },
                                        }
                                    } else {
                                        lemma_block_lock(b5);
                                        match parse_block(b5) {
                                            Err(_) => {
                                                assert(rb is Err);
                                                assert(rs is Err);
                                            },
                                            Ok((body, b6)) => {
                                                let tree = Ast::FunctionDecl(
                                                    name,
                                                    params,
                                                    Box::new(body),
                                                );
                                                let b7 = ParseState {
                                                    declared: intern(b6.declared, name),
                                                    defined: intern(b6.defined, name),
                                                    ..b6
                                                };
                                                assert(rb == Ok::<(Ast, ParseState), Failure>(
                                                    (tree, b7),
                                                ));
                                                assert(declares(tree, d) == intern(
                                                    declares(body, d),
                                                    name,
                                                ));
                                                assert(defines(tree, f) == intern(
                                                    defines(body, f),
                                                    name,
                                                ));
                                                assert(calls_declared(tree, d) == calls_declared(
                                                    body,
                                                    d,
                                                ));
                                                assert(defined_once(tree, f) == (!holds(f, name)
                                                    && defined_once(body, f)));
                                            },
                                        }
                                    }
                                },
                            }
                        },
                    }
                }
            }
        }
    }
}

/// The parser with the same files, enforcing the table.
pub open spec fn enforced_view(p: ParserView) -> ParserView {
    ParserView { state: enforced(p.state), ..p }
}

/// Whether every declared function is defined.
pub open spec fn all_defined(declared: Seq<Seq<char>>, defined: Seq<Seq<char>>) -> bool {
    forall|i: int| 0 <= i < declared.len() ==> holds(defined, #[trigger] declared[i])
}

/// No function from index `i` on is found undefined exactly when each of
/// them is defined.
pub proof fn lemma_first_undefined(declared: Seq<Seq<char>>, defined: Seq<Seq<char>>, i: nat)
    ensures
        first_undefined(declared, defined, i) is None <==> forall|j: int|
            i <= j < declared.len() ==> holds(defined, #[trigger] declared[j]),
    decreases declared.len() - i,
{
    if i < declared.len() {
        lemma_first_undefined(declared, defined, i + 1);
    }
}

/// An include directive: the two parsers keep step.
pub proof fn lemma_include_blind(b: ParseState)
    requires
        !b.strict,
    ensures
        lock_blind(parse_include(b), parse_include(enforced(b)), b),
{
    reveal(parse_include);
    if let Ok(b1) = eat(b, Tok::Include) {
        lemma_token_blind(b1, "expected string literal after @include"@);
    }
}

/// Whether the two parsers keep step on a run from the parser `p` that
/// reaches the end of the translation unit.
pub open spec fn lock_run(
    rb: std::result::Result<(Step, ParserView), (SpecError, ParserView)>,
    rs: std::result::Result<(Step, ParserView), (SpecError, ParserView)>,
    p: ParserView,
) -> bool {
    match rb {
        Ok((Step::Done(list), after)) => {
            let n = p.nodes.len();
            let declared = declares_range(list, n, list.len(), p.state.declared);
            let defined = defines_range(list, n, list.len(), p.state.defined);
            &&& list.len() >= n
            &&& list.subrange(0, n as int) == p.nodes
            &&& if calls_declared_range(list, n, list.len(), p.state.declared)
                && defined_once_range(list, n, list.len(), p.state.defined) && all_defined(
                declared,
                defined,
            ) {
                rs == Ok::<(Step, ParserView), (SpecError, ParserView)>((Step::Done(list), enforced_view(after)))
            } else {
                rs is Err
            }
        },
        Ok((Step::Include(_), _)) => true,
        Err(_) => rs is Err,
    }
}

/// A run in one file: the two parsers keep step, and at the end the parser
/// that enforces the table asks for every declared function to be defined.
pub proof fn lemma_run_lock(p: ParserView)
    requires
        !p.state.strict,
        p.suspended.len() == 0,
    ensures
        lock_run(run(p), run(enforced_view(p)), p),
    decreases measure(p.state),
{
    reveal(run);
    let b = p.state;
    let d = b.declared;
    let f = b.defined;
    let n = p.nodes.len();
    let rb = run(p);
    let rs = run(enforced_view(p));
    if b.current is EOF {
        lemma_first_undefined(d, f, 0);
        assert(p.nodes.subrange(0, n as int) =~= p.nodes);
        assert(declares_range(p.nodes, n, n, d) == d);
        assert(defines_range(p.nodes, n, n, f) == f);
        assert(calls_declared_range(p.nodes, n, n, d));
        assert(defined_once_range(p.nodes, n, n, f));
        assert(rb == Ok::<(Step, ParserView), (SpecError, ParserView)>(
            (Step::Done(p.nodes), ParserView { nodes: Seq::empty(), ..p }),
        ));
    } else if b.current is Include {
        lemma_include_blind(b);
    } else {
        lemma_statement_lock(b);
        lemma_statement_moves(b);
        lemma_statement_moves(enforced(b));
        match parse_statement(b) {
            Err(_) => {
                assert(rb is Err);
                assert(rs is Err);
            },
            Ok((node, b1)) => {
                let next = ParserView { state: b1, nodes: p.nodes.push(node), ..p };
                lemma_run_lock(next);
                assert(rb == run(next));
                match run(next) {
                    Ok((Step::Done(list), after)) => {
                        let m = list.len();
                        assert(list.subrange(0, n as int + 1)[n as int] == list[n as int]);
                        assert(list[n as int] == node);
                        assert(list.subrange(0, n as int) =~= list.subrange(
                            0,
                            n as int + 1,
                        ).subrange(0, n as int));
                        assert(p.nodes.push(node).subrange(0, n as int) =~= p.nodes);
                        assert(declares_range(list, n, m, d) == declares_range(
                            list,
                            n + 1,
                            m,
                            declares(node, d),
                        ));
                        assert(defines_range(list, n, m, f) == defines_range(
                            list,
                            n + 1,
                            m,
                            defines(node, f),
                        ));
                        assert(calls_declared_range(list, n, m, d) == (calls_declared(node, d)
                            && calls_declared_range(list, n + 1, m, declares(node, d))));
                        assert(defined_once_range(list, n, m, f) == (defined_once(node, f)
                            && defined_once_range(list, n + 1, m, defines(node, f))));
                        if calls_declared(node, d) && defined_once(node, f) {
                            assert(enforced_view(next) == (ParserView {
                                state: enforced(b1),
                                nodes: p.nodes.push(node),
                                ..enforced_view(p)
                            }));
                            assert(rs == run(enforced_view(next)));
                        } else {
                            assert(rs is Err);
                        }
                    },
                    Ok((Step::Include(_), _)) => {},
                    Err(_) => {
                        if calls_declared(node, d) && defined_once(node, f) {
                            assert(enforced_view(next) == (ParserView {
                                state: enforced(b1),
                                nodes: p.nodes.push(node),
                                ..enforced_view(p)
                            }));
                            assert(rs == run(enforced_view(next)));
                        } else {
                            assert(rs is Err);
                        }
                    },
                }
            },
        }
    }
}

/// The symbol contract. Take a file that follows the grammar and includes
/// nothing, and let `nodes` be its top-level trees. Parsing it succeeds
/// exactly when every call names a function that is declared where the call
/// stands, no function is given a second body, and every declared function
/// is defined when the file ends. The trees are then `nodes`; otherwise
/// parsing fails and yields no tree.
pub proof fn lemma_symbol_contract(p: ParserView, nodes: Seq<Ast>, after: ParserView)
    requires
        p.state.strict,
        p.suspended.len() == 0,
        p.nodes.len() == 0,
        run(ParserView { state: relaxed(p.state), ..p }) == Ok::<
            (Step, ParserView),
            (SpecError, ParserView),
        >((Step::Done(nodes), after)),
    ensures
        run(p) is Ok <==> calls_declared_range(nodes, 0, nodes.len(), p.state.declared)
            && defined_once_range(nodes, 0, nodes.len(), p.state.defined) && all_defined(
            declares_range(nodes, 0, nodes.len(), p.state.declared),
            defines_range(nodes, 0, nodes.len(), p.state.defined),
        ),
        run(p) matches Ok((step, _)) ==> step == Step::Done(nodes),
{
    let pb = ParserView { state: relaxed(p.state), ..p };
    lemma_run_lock(pb);
    assert(enforced_view(pb) == p);
}

} // verus!
