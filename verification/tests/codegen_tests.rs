use zedc::ast::{AstNode, BinaryOperator};
use zedc::codegen::CodeGenerator;

fn num(n: i64) -> Box<AstNode> {
    Box::new(AstNode::Number(n))
}

fn var(name: &str) -> Box<AstNode> {
    Box::new(AstNode::Variable(name.to_string()))
}

fn lines(text: &str) -> Vec<&str> {
    text.lines().collect()
}

#[test]
fn empty_entry_file() {
    let out = CodeGenerator::new(true).generate(&[]);
    assert_eq!(
        out,
        "\n.section .text\n\n.global _start\n\n_start:\n    pushq %rbp\n    movq %rsp, %rbp\n    subq $256, %rsp\n\n    movq %rbp, %rsp\n    popq %rbp\n    movq $60, %rax\n    xorq %rdi, %rdi\n    syscall\n"
    );
}

#[test]
fn empty_included_file_has_no_routine() {
    let out = CodeGenerator::new(false).generate(&[]);
    assert_eq!(out, "\n.section .text\n");
}

#[test]
fn arithmetic_assignment() {
    // x = 2 + 3 * 4;
    let ast = vec![AstNode::Assignment(
        "x".to_string(),
        Box::new(AstNode::BinaryOp(
            num(2),
            BinaryOperator::Add,
            Box::new(AstNode::BinaryOp(num(3), BinaryOperator::Multiply, num(4))),
        )),
    )];
    let out = CodeGenerator::new(true).generate(&ast);
    let expected = "    pushq $2\n    pushq $3\n    pushq $4\n    popq %rcx\n    popq %rax\n    imulq %rcx, %rax\n    pushq %rax\n    popq %rcx\n    popq %rax\n    addq %rcx, %rax\n    pushq %rax\n    popq %rax\n    movq %rax, -8(%rbp)\n";
    assert!(out.contains(expected), "{}", out);
}

#[test]
fn if_else_labels() {
    // if (a == b) { c = 1; } else { c = 2; }
    let ast = vec![AstNode::If(
        Box::new(AstNode::BinaryOp(var("a"), BinaryOperator::Equals, var("b"))),
        Box::new(AstNode::Block(vec![AstNode::Assignment("c".to_string(), num(1))])),
        Some(Box::new(AstNode::Block(vec![AstNode::Assignment("c".to_string(), num(2))]))),
    )];
    let out = CodeGenerator::new(true).generate(&ast);
    let expected = "    pushq -8(%rbp)\n    pushq -16(%rbp)\n    popq %rcx\n    popq %rax\n    cmpq %rcx, %rax\n    sete %al\n    movzbq %al, %rax\n    pushq %rax\n    popq %rax\n    testq %rax, %rax\n    je .L0\n    pushq $1\n    popq %rax\n    movq %rax, -24(%rbp)\n    jmp .L1\n.L0:\n    pushq $2\n    popq %rax\n    movq %rax, -24(%rbp)\n.L1:\n";
    assert!(out.contains(expected), "{}", out);
}

#[test]
fn seventh_parameter_comes_from_the_callers_frame() {
    let params: Vec<String> = "a b c d e f g h".split(' ').map(String::from).collect();
    let ast = vec![AstNode::FunctionDecl("f".to_string(), params, Box::new(AstNode::Block(vec![])))];
    let out = CodeGenerator::new(false).generate(&ast);
    let expected = "f:\n    pushq %rbp\n    movq %rsp, %rbp\n    subq $256, %rsp\n    movq %rdi, -8(%rbp)\n    movq %rsi, -16(%rbp)\n    movq %rdx, -24(%rbp)\n    movq %rcx, -32(%rbp)\n    movq %r8, -40(%rbp)\n    movq %r9, -48(%rbp)\n    movq 16(%rbp), %rax\n    movq %rax, -56(%rbp)\n    movq 24(%rbp), %rax\n    movq %rax, -64(%rbp)\n    movq %rbp, %rsp\n    popq %rbp\n    ret\n";
    assert_eq!(out, format!("\n.section .text\n{}", expected));
}

#[test]
fn string_pool_holds_each_text_once() {
    let call = |s: &str| AstNode::FunctionCall("p".to_string(), vec![AstNode::StringLiteral(s.to_string())]);
    let ast = vec![call("hi"), call("yo"), call("hi"), AstNode::Return(Some(Box::new(AstNode::StringLiteral("hi".to_string()))))];
    let out = CodeGenerator::new(true).generate(&ast);
    assert!(out.starts_with(".section .data\nstr0:\n    .string \"hi\"\nstr1:\n    .string \"yo\"\n\n.section .text\n"), "{}", out);
    assert_eq!(out.matches(".string").count(), 2);
    assert_eq!(out.matches("    leaq str0(%rip), %rax\n    pushq %rax\n").count(), 3);
    assert_eq!(out.matches("    leaq str1(%rip), %rax\n    pushq %rax\n").count(), 1);
}

#[test]
fn call_pushes_arguments_in_reverse_and_pops_six() {
    let args: Vec<AstNode> = (1..=8).map(AstNode::Number).collect();
    let out = CodeGenerator::new(true).generate(&[AstNode::FunctionCall("f".to_string(), args)]);
    let expected = "    pushq $8\n    pushq $7\n    pushq $6\n    pushq $5\n    pushq $4\n    pushq $3\n    pushq $2\n    pushq $1\n    popq %rdi\n    popq %rsi\n    popq %rdx\n    popq %rcx\n    popq %r8\n    popq %r9\n    call f\n    pushq %rax\n";
    assert!(out.contains(expected), "{}", out);
}

#[test]
fn while_loop_and_logical_operators() {
    let ast = vec![AstNode::While(
        Box::new(AstNode::BinaryOp(var("a"), BinaryOperator::And, var("b"))),
        Box::new(AstNode::Assignment(
            "a".to_string(),
            Box::new(AstNode::BinaryOp(var("a"), BinaryOperator::Or, num(-1))),
        )),
    )];
    let out = CodeGenerator::new(true).generate(&ast);
    let expected = ".L0:\n    pushq -8(%rbp)\n    pushq -16(%rbp)\n    popq %rcx\n    popq %rax\n    testq %rax, %rax\n    jz .L2\n    testq %rcx, %rcx\n    setne %al\n    movzbq %al, %rax\n.L2:\n    pushq %rax\n    popq %rax\n    testq %rax, %rax\n    je .L1\n    pushq -8(%rbp)\n    pushq $-1\n    popq %rcx\n    popq %rax\n    testq %rax, %rax\n    jnz .L3\n    testq %rcx, %rcx\n    setne %al\n    movzbq %al, %rax\n.L3:\n    pushq %rax\n    popq %rax\n    movq %rax, -8(%rbp)\n    jmp .L0\n.L1:\n";
    assert!(out.contains(expected), "{}", out);
}

#[test]
fn included_file_with_statements_gets_an_init_routine() {
    let ast = vec![
        AstNode::Assignment("x".to_string(), num(1)),
        AstNode::FunctionDecl("f".to_string(), vec![], Box::new(AstNode::Block(vec![AstNode::Return(None)]))),
    ];
    let out = CodeGenerator::new(false).generate(&ast);
    assert_eq!(
        out,
        "\n.section .text\nf:\n    pushq %rbp\n    movq %rsp, %rbp\n    subq $256, %rsp\n    movq %rbp, %rsp\n    popq %rbp\n    ret\n    movq %rbp, %rsp\n    popq %rbp\n    ret\n\n__init_0:\n    pushq %rbp\n    movq %rsp, %rbp\n    subq $256, %rsp\n    pushq $1\n    popq %rax\n    movq %rax, -8(%rbp)\n    movq %rbp, %rsp\n    popq %rbp\n    ret\n"
    );
}

#[test]
fn inline_assembly_is_lowered() {
    let ast = vec![
        AstNode::Assignment("x".to_string(), num(1)),
        AstNode::Assignment("y".to_string(), num(2)),
        AstNode::InlineAsm {
            template: "  movq %rax, %rbx \r\n\n\tsyscall\n".to_string(),
            outputs: vec![("=r".to_string(), "y".to_string()), ("=m".to_string(), "x".to_string()), ("=r".to_string(), "nope".to_string())],
            inputs: vec![("r".to_string(), "x".to_string()), ("r".to_string(), "y".to_string())],
            clobbers: vec!["rcx".to_string(), "memory".to_string(), "r11".to_string(), "cc".to_string()],
        },
    ];
    let out = CodeGenerator::new(true).generate(&ast);
    let expected = "    # Begin inline assembly\n    pushq %rcx\n    pushq %r11\n    movq -8(%rbp), %rax\n    movq -16(%rbp), %rbx\n    movq %rax, %rbx\n    \n    syscall\n    movq %rax, -16(%rbp)\n    movq %rax, -8(%rbp)\n    popq %r11\n    popq %rcx\n    # End inline assembly\n";
    assert!(out.contains(expected), "{}", out);
}

#[test]
fn array_access() {
    let ast = vec![
        AstNode::ArrayAssignment(var("buf"), num(0), num(65)),
        AstNode::ArrayIndex(var("buf"), var("i")),
    ];
    let out = CodeGenerator::new(true).generate(&ast);
    let expected = "    pushq $65\n    pushq -8(%rbp)\n    pushq $0\n    popq %rcx        # index\n    popq %rax        # array base\n    popq %rdx        # value\n    movb %dl, (%rax,%rcx)\n    pushq -8(%rbp)\n    pushq -16(%rbp)\n    popq %rcx        # index\n    popq %rax        # array base\n    leaq (%rax,%rcx), %rax\n    movzbq (%rax), %rax\n    pushq %rax\n";
    assert!(out.contains(expected), "{}", out);
}

#[test]
fn two_runs_give_the_same_text() {
    let ast = vec![AstNode::If(var("a"), Box::new(AstNode::Block(vec![AstNode::StringLiteral("s".to_string())])), None)];
    let first = CodeGenerator::new(true).generate(&ast);
    let second = CodeGenerator::new(true).generate(&ast);
    assert_eq!(first, second);
    assert_eq!(lines(&first)[0], ".section .data");
}

#[test]
fn slots_are_per_function() {
    let body = AstNode::Block(vec![AstNode::Assignment("y".to_string(), var("p"))]);
    let ast = vec![
        AstNode::Assignment("a".to_string(), num(1)),
        AstNode::FunctionDecl("f".to_string(), vec!["p".to_string()], Box::new(body)),
        AstNode::Assignment("b".to_string(), var("a")),
    ];
    let out = CodeGenerator::new(true).generate(&ast);
    assert!(out.contains("f:\n    pushq %rbp\n    movq %rsp, %rbp\n    subq $256, %rsp\n    movq %rdi, -8(%rbp)\n    pushq -8(%rbp)\n    popq %rax\n    movq %rax, -16(%rbp)\n"), "{}", out);
    assert!(out.contains("_start:\n    pushq %rbp\n    movq %rsp, %rbp\n    subq $256, %rsp\n    pushq $1\n    popq %rax\n    movq %rax, -8(%rbp)\n    pushq -8(%rbp)\n    popq %rax\n    movq %rax, -16(%rbp)\n"), "{}", out);
}

#[test]
fn can_generate_refuses_a_fifth_register_operand() {
    let operand = |c: &str, n: &str| (c.to_string(), n.to_string());
    let block = |inputs: Vec<(String, String)>| AstNode::InlineAsm {
        template: "nop".to_string(),
        outputs: vec![],
        inputs,
        clobbers: vec![],
    };
    let four = vec![operand("r", "a"), operand("r", "b"), operand("r", "c"), operand("r", "d")];
    let mut five = vec![operand("r", "a"), operand("r", "b"), operand("r", "c"), operand("r", "d")];
    five.push(operand("r", "e"));
    let mut other = vec![operand("r", "a"), operand("r", "b"), operand("r", "c"), operand("r", "d")];
    other.push(operand("m", "e"));
    let generator = CodeGenerator::new(true);
    assert!(generator.can_generate(&[block(four)]));
    assert!(!generator.can_generate(&[block(five)]));
    assert!(generator.can_generate(&[block(other)]));
    let nested = AstNode::While(
        num(1),
        Box::new(AstNode::Block(vec![AstNode::InlineAsm {
            template: String::new(),
            outputs: vec![operand("=m", "a"), operand("=m", "b"), operand("=m", "c"), operand("=m", "d"), operand("=r", "e")],
            inputs: vec![],
            clobbers: vec![],
        }])),
    );
    assert!(!generator.can_generate(&[nested]));
    assert!(generator.can_generate(&[]));
}

#[test]
fn every_run_of_one_generator_starts_afresh() {
    let ast = vec![AstNode::While(var("a"), Box::new(AstNode::Block(vec![])))];
    let mut generator = CodeGenerator::new(false);
    let first = generator.generate(&ast);
    let second = generator.generate(&ast);
    assert!(first.contains("__init_0:") && first.contains(".L1:") && first.contains(".L2:"));
    assert_eq!(first, second);
    let other = vec![AstNode::If(num(1), Box::new(AstNode::Assignment("z".to_string(), var("y"))), None)];
    let third = generator.generate(&other);
    assert_eq!(third, CodeGenerator::new(false).generate(&other));
    assert!(third.contains("    je .L1\n") && third.contains("    jmp .L2\n"));
    assert!(third.contains("    pushq -8(%rbp)\n") && third.contains("    movq %rax, -16(%rbp)\n"));
    let mut entry = CodeGenerator::new(true);
    let if_only = vec![AstNode::If(num(1), Box::new(AstNode::Block(vec![])), None)];
    let s1 = entry.generate(&if_only);
    assert_eq!(entry.generate(&if_only), s1);
    assert!(s1.contains("    je .L0\n") && s1.contains("    jmp .L1\n"));
}

#[test]
fn no_data_section_without_string_literals() {
    let ast = vec![AstNode::Assignment("x".to_string(), num(1))];
    let out = CodeGenerator::new(true).generate(&ast);
    assert!(out.starts_with("\n.section .text\n"));
    assert!(!out.contains(".section .data"));
}

#[test]
fn predeclaration_emits_nothing() {
    let ast = vec![AstNode::FunctionPredecl("f".to_string(), vec!["a".to_string()])];
    let out = CodeGenerator::new(true).generate(&ast);
    assert_eq!(out, CodeGenerator::new(true).generate(&[]));
}

#[test]
fn literal_in_return_and_array_access_is_pooled() {
    let text = |s: &str| Box::new(AstNode::StringLiteral(s.to_string()));
    let ast = vec![
        AstNode::ArrayAssignment(text("a"), text("b"), text("c")),
        AstNode::ArrayIndex(text("d"), text("a")),
        AstNode::Return(Some(text("e"))),
    ];
    let out = CodeGenerator::new(true).generate(&ast);
    for (i, s) in ["a", "b", "c", "d", "e"].iter().enumerate() {
        assert!(out.contains(&format!("str{}:\n    .string \"{}\"\n", i, s)), "{}", out);
    }
    assert_eq!(out.matches(".string").count(), 5);
}
