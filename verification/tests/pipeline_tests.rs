use zedc::codegen::CodeGenerator;
use zedc::entry::is_main_file;
use zedc::error::CompilerError;
use zedc::lexer::Lexer;
use zedc::parser::{IncludeFailure, ParseStep, Parser};

/// Compiles a translation unit whose included files are given by name.
fn compile(source: &str, filename: &str, files: &[(&str, &str)]) -> Result<String, CompilerError> {
    let lexer = Lexer::new(source, filename.to_string());
    let mut parser = Parser::new(lexer, "/work".to_string())?;
    parser.set_stdlib_path("/std".to_string());
    let ast = loop {
        match parser.parse_program()? {
            ParseStep::Done(nodes) => break nodes,
            ParseStep::Include(request) => {
                let full = format!("{}/{}", request.base.clone().unwrap(), request.path);
                match files.iter().find(|(name, _)| *name == full) {
                    Some((name, content)) => {
                        parser.register_include(&full, name.to_string())?;
                        parser.enter_include(content, name.to_string(), "/work".to_string())?;
                    }
                    None => {
                        return Err(parser.include_error(IncludeFailure::Unresolved {
                            path: full,
                            reason: "not found".to_string(),
                        }))
                    }
                }
            }
        }
    };
    let mut generator = CodeGenerator::new(is_main_file(filename));
    assert!(generator.can_generate(&ast));
    Ok(generator.generate(&ast))
}

#[test]
fn minimal_program_in_the_entry_file() {
    let out = compile("fn main(){ return 0; }", "main.zed", &[]).unwrap();
    assert_eq!(
        out,
        "\n.section .text\nmain:\n    pushq %rbp\n    movq %rsp, %rbp\n    subq $256, %rsp\n    pushq $0\n    popq %rax\n    movq %rbp, %rsp\n    popq %rbp\n    ret\n    movq %rbp, %rsp\n    popq %rbp\n    ret\n\n.global _start\n\n_start:\n    pushq %rbp\n    movq %rsp, %rbp\n    subq $256, %rsp\n\n    movq %rbp, %rsp\n    popq %rbp\n    movq $60, %rax\n    xorq %rdi, %rdi\n    syscall\n"
    );
    assert!(out.ends_with("    movq $60, %rax\n    xorq %rdi, %rdi\n    syscall\n"));
}

#[test]
fn the_same_program_in_another_file_has_no_entry_routine() {
    let out = compile("fn main(){ return 0; }", "lib.zed", &[]).unwrap();
    assert!(!out.contains("_start"));
    assert!(!out.contains("__init_"));
    assert!(out.ends_with("    ret\n"));
}

#[test]
fn arithmetic_at_top_level() {
    let out = compile("x = 2 + 3 * 4;", "main.zed", &[]).unwrap();
    let body = "    pushq $2\n    pushq $3\n    pushq $4\n    popq %rcx\n    popq %rax\n    imulq %rcx, %rax\n    pushq %rax\n    popq %rcx\n    popq %rax\n    addq %rcx, %rax\n    pushq %rax\n    popq %rax\n    movq %rax, -8(%rbp)\n";
    assert!(out.contains(body), "{}", out);
    assert!(out.find("imulq").unwrap() < out.find("addq %rcx, %rax").unwrap());
}

#[test]
fn if_else_takes_two_labels() {
    let out = compile("if (a == b) { c = 1; } else { c = 2; }", "main.zed", &[]).unwrap();
    assert!(out.contains("    testq %rax, %rax\n    je .L0\n"), "{}", out);
    assert!(out.contains("    jmp .L1\n.L0:\n"), "{}", out);
    assert!(out.contains(".L1:\n\n    movq %rbp, %rsp\n"), "{}", out);
    assert!(!out.contains(".L2"));
}

#[test]
fn seventh_parameter_is_read_above_the_frame_pointer() {
    let out = compile("fn f(a, b, c, d, e, f, g) { return g; }", "lib.zed", &[]).unwrap();
    assert!(out.contains("    movq %r9, -48(%rbp)\n    movq 16(%rbp), %rax\n    movq %rax, -56(%rbp)\n"), "{}", out);
    assert!(out.contains("    pushq -56(%rbp)\n    popq %rax\n"), "{}", out);
}

#[test]
fn include_cycle_is_an_error() {
    let files = [("/work/a.zed", "@include \"b.zed\";"), ("/work/b.zed", "@include \"a.zed\";")];
    let error = compile("@include \"a.zed\";", "main.zed", &files).unwrap_err();
    assert!(error.format_error().contains("circular include detected"));
    assert!(error.format_plain().starts_with("error: circular include detected: /work/a.zed\n  --> /work/b.zed:1:"));
}

#[test]
fn printing_through_the_standard_library() {
    let io = "fn println(s);\nfn println(s) {\n    asm \"movq $1, %rax\\nsyscall\" : : \"r\"[s] : \"rcx\", \"r11\", \"memory\";\n}\n";
    let out = compile("@include \"std/io.zed\"; println(\"hi\");", "main.zed", &[("/std/io.zed", io)]).unwrap();
    assert!(out.starts_with(".section .data\nstr0:\n    .string \"hi\"\n\n.section .text\nprintln:\n"), "{}", out);
    assert!(out.contains("    # Begin inline assembly\n    pushq %rcx\n    pushq %r11\n    movq -8(%rbp), %rax\n    movq $1, %rax\n    syscall\n    popq %r11\n    popq %rcx\n    # End inline assembly\n"), "{}", out);
    assert!(out.contains("_start:\n    pushq %rbp\n    movq %rsp, %rbp\n    subq $256, %rsp\n    leaq str0(%rip), %rax\n    pushq %rax\n    popq %rdi\n    call println\n    pushq %rax\n"), "{}", out);
}

#[test]
fn undeclared_call_does_not_compile() {
    let error = compile("println(\"hi\");", "main.zed", &[]).unwrap_err();
    assert!(error.format_plain().starts_with("error: call to undeclared function 'println'\n"));
}

#[test]
fn compiling_twice_gives_the_same_assembly() {
    let source = "fn f(a) { while (a > 0 && a != 3) { a = a - 1; } return \"done\"; } x = f(10); if (x) { y = \"done\"; }";
    let first = compile(source, "main.zed", &[]).unwrap();
    let second = compile(source, "main.zed", &[]).unwrap();
    assert_eq!(first, second);
    assert_eq!(first.matches(".string").count(), 1);
    assert_eq!(first.matches("leaq str0(%rip), %rax").count(), 2);
}
