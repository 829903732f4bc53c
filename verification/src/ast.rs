//! The syntax tree, and the mathematical tree that contracts speak of.

use vstd::prelude::*;
use crate::text::{text_pairs, texts};

verus! {

/// The operator of a binary expression.
#[derive(Debug, Clone, Copy, PartialEq, Eq, Structural)]
pub enum BinaryOperator {
    Add,
    Subtract,
    Multiply,
    Divide,
    Equals,
    NotEquals,
    And,
    Or,
    Less,
    Greater,
    LessEqual,
    GreaterEqual,
}

/// A node of the syntax tree. Every node owns its children.
#[derive(Debug, PartialEq)]
pub enum AstNode {
    Number(i64),
    Variable(String),
    BinaryOp(Box<AstNode>, BinaryOperator, Box<AstNode>),
    Assignment(String, Box<AstNode>),
    Block(Vec<AstNode>),
    If(Box<AstNode>, Box<AstNode>, Option<Box<AstNode>>),
    While(Box<AstNode>, Box<AstNode>),
    FunctionDecl(String, Vec<String>, Box<AstNode>),
    FunctionPredecl(String, Vec<String>),
    FunctionCall(String, Vec<AstNode>),
    Return(Option<Box<AstNode>>),
    StringLiteral(String),
    ArrayIndex(Box<AstNode>, Box<AstNode>),
    ArrayAssignment(Box<AstNode>, Box<AstNode>, Box<AstNode>),
    InlineAsm {
        template: String,
        outputs: Vec<(String, String)>,
        inputs: Vec<(String, String)>,
        clobbers: Vec<String>,
    },
}

/// The mathematical syntax tree: text is a sequence of characters, a list of
/// children a sequence of trees.
pub enum Ast {
    Number(i64),
    Variable(Seq<char>),
    BinaryOp(Box<Ast>, BinaryOperator, Box<Ast>),
    Assignment(Seq<char>, Box<Ast>),
    Block(Seq<Ast>),
    If(Box<Ast>, Box<Ast>, Option<Box<Ast>>),
    While(Box<Ast>, Box<Ast>),
    FunctionDecl(Seq<char>, Seq<Seq<char>>, Box<Ast>),
    FunctionPredecl(Seq<char>, Seq<Seq<char>>),
    FunctionCall(Seq<char>, Seq<Ast>),
    Return(Option<Box<Ast>>),
    StringLiteral(Seq<char>),
    ArrayIndex(Box<Ast>, Box<Ast>),
    ArrayAssignment(Box<Ast>, Box<Ast>, Box<Ast>),
    InlineAsm {
        template: Seq<char>,
        outputs: Seq<(Seq<char>, Seq<char>)>,
        inputs: Seq<(Seq<char>, Seq<char>)>,
        clobbers: Seq<Seq<char>>,
    },
}

/// The mathematical tree that a node stands for.
pub open spec fn ast_of(node: AstNode) -> Ast
    decreases node,
{
    match node {
        AstNode::Number(n) => Ast::Number(n),
        AstNode::Variable(name) => Ast::Variable(name@),
        AstNode::BinaryOp(l, op, r) => Ast::BinaryOp(
            Box::new(ast_of(*l)),
            op,
            Box::new(ast_of(*r)),
        ),
        AstNode::Assignment(name, value) => Ast::Assignment(name@, Box::new(ast_of(*value))),
        AstNode::Block(v) => Ast::Block(
            Seq::new(
                v.len() as nat,
                |i: int|
                    if 0 <= i < v.len() {
                        ast_of(v[i])
                    } else {
                        Ast::Number(0)
                    },
            ),
        ),
        AstNode::If(c, t, e) => Ast::If(
            Box::new(ast_of(*c)),
            Box::new(ast_of(*t)),
            match e {
                Some(b) => Some(Box::new(ast_of(*b))),
                None => None,
            },
        ),
        AstNode::While(c, b) => Ast::While(Box::new(ast_of(*c)), Box::new(ast_of(*b))),
        AstNode::FunctionDecl(name, params, body) => Ast::FunctionDecl(
            name@,
            texts(params@),
            Box::new(ast_of(*body)),
        ),
        AstNode::FunctionPredecl(name, params) => Ast::FunctionPredecl(name@, texts(params@)),
        AstNode::FunctionCall(name, args) => Ast::FunctionCall(
            name@,
            Seq::new(
                args.len() as nat,
                |i: int|
                    if 0 <= i < args.len() {
                        ast_of(args[i])
                    } else {
                        Ast::Number(0)
                    },
            ),
        ),
        AstNode::Return(value) => Ast::Return(
            match value {
                Some(b) => Some(Box::new(ast_of(*b))),
                None => None,
            },
        ),
        AstNode::StringLiteral(s) => Ast::StringLiteral(s@),
        AstNode::ArrayIndex(a, i) => Ast::ArrayIndex(Box::new(ast_of(*a)), Box::new(ast_of(*i))),
        AstNode::ArrayAssignment(a, i, v) => Ast::ArrayAssignment(
            Box::new(ast_of(*a)),
            Box::new(ast_of(*i)),
            Box::new(ast_of(*v)),
        ),
        AstNode::InlineAsm { template, outputs, inputs, clobbers } => Ast::InlineAsm {
            template: template@,
            outputs: text_pairs(outputs@),
            inputs: text_pairs(inputs@),
            clobbers: texts(clobbers@),
        },
    }
}

impl View for AstNode {
    type V = Ast;

    open spec fn view(&self) -> Ast {
        ast_of(*self)
    }
}

/// A node and its tree are of the same kind where the kind decides what an
/// assignment may target.
pub proof fn lemma_target(node: AstNode)
    ensures
        node@ is Variable <==> node is Variable,
        node@ is ArrayIndex <==> node is ArrayIndex,
        node matches AstNode::Variable(name) ==> node@ == Ast::Variable(name@),
        node matches AstNode::ArrayIndex(array, index) ==> node@ == Ast::ArrayIndex(
            Box::new(array@),
            Box::new(index@),
        ),
{
}

/// The trees of a list of nodes.
pub open spec fn asts(nodes: Seq<AstNode>) -> Seq<Ast> {
    Seq::new(nodes.len(), |i: int| nodes[i]@)
}

/// A block's tree holds the trees of its statements, and a call's tree those
/// of its arguments.
pub proof fn lemma_children(node: AstNode)
    ensures
        node matches AstNode::Block(v) ==> node@ == Ast::Block(asts(v@)),
        node matches AstNode::FunctionCall(name, args) ==> node@ == Ast::FunctionCall(
            name@,
            asts(args@),
        ),
{
    match node {
        AstNode::Block(v) => {
            assert(node@->Block_0 =~= asts(v@));
        },
        AstNode::FunctionCall(name, args) => {
            assert(node@->FunctionCall_1 =~= asts(args@));
        },
        _ => {},
    }
}

} // verus!
