use zedc::ast::{AstNode, BinaryOperator};
use zedc::error::{CompilerError, ErrorKind};
use zedc::lexer::Lexer;
use zedc::parser::{IncludeFailure, ParseStep, Parser};

/// Parses a translation unit whose files are given by name and content.
fn parse_unit(main: &str, files: &[(&str, &str)]) -> Result<Vec<AstNode>, CompilerError> {
    let lexer = Lexer::new(main, "/src/main.zed".to_string());
    let mut parser = Parser::new(lexer, "/src".to_string())?;
    parser.set_stdlib_path("/lib".to_string());
    loop {
        match parser.parse_program()? {
            ParseStep::Done(nodes) => return Ok(nodes),
            ParseStep::Include(request) => {
                let base = request.base.clone().expect("a base directory");
                let full = format!("{}/{}", base, request.path);
                match files.iter().find(|(name, _)| *name == full) {
                    None => {
                        return Err(parser.include_error(IncludeFailure::Unresolved {
                            path: full,
                            reason: "No such file or directory".to_string(),
                        }))
                    }
                    Some((name, content)) => {
                        parser.register_include(&full, name.to_string())?;
                        let directory = match name.rfind('/') {
                            Some(i) => name[..i].to_string(),
                            None => ".".to_string(),
                        };
                        parser.enter_include(content, name.to_string(), directory)?;
                    }
                }
            }
        }
    }
}

fn parse(source: &str) -> Result<Vec<AstNode>, CompilerError> {
    parse_unit(source, &[])
}

fn message(result: Result<Vec<AstNode>, CompilerError>) -> String {
    match result {
        Err(e) => match e.kind {
            ErrorKind::SyntaxError(m) => m,
            ErrorKind::UnexpectedToken { expected, found } => {
                format!("expected {}, found {}", expected, found)
            }
            ErrorKind::IOError(m) => format!("IO error: {}", m),
            other => panic!("unexpected kind {:?}", other),
        },
        Ok(nodes) => panic!("parsed {:?}", nodes),
    }
}

fn num(n: i64) -> Box<AstNode> {
    Box::new(AstNode::Number(n))
}

fn var(name: &str) -> Box<AstNode> {
    Box::new(AstNode::Variable(name.to_string()))
}

fn bin(l: Box<AstNode>, op: BinaryOperator, r: Box<AstNode>) -> Box<AstNode> {
    Box::new(AstNode::BinaryOp(l, op, r))
}

#[test]
fn empty_program() {
    assert_eq!(parse("").unwrap(), vec![]);
    assert_eq!(parse("  // nothing\n/* at all */").unwrap(), vec![]);
}

#[test]
fn multiplication_binds_tighter_than_addition() {
    assert_eq!(
        parse("x = 2 + 3 * 4;").unwrap(),
        vec![AstNode::Assignment(
            "x".to_string(),
            bin(num(2), BinaryOperator::Add, bin(num(3), BinaryOperator::Multiply, num(4)))
        )]
    );
    assert_eq!(
        parse("2 * 3 + 4;").unwrap(),
        vec![*bin(bin(num(2), BinaryOperator::Multiply, num(3)), BinaryOperator::Add, num(4))]
    );
}

#[test]
fn arithmetic_is_left_associative() {
    assert_eq!(
        parse("a - b - c;").unwrap(),
        vec![*bin(bin(var("a"), BinaryOperator::Subtract, var("b")), BinaryOperator::Subtract, var("c"))]
    );
    assert_eq!(
        parse("a / b * c / d;").unwrap(),
        vec![*bin(
            bin(bin(var("a"), BinaryOperator::Divide, var("b")), BinaryOperator::Multiply, var("c")),
            BinaryOperator::Divide,
            var("d")
        )]
    );
    assert_eq!(
        parse("a - b * c + d / e;").unwrap(),
        vec![*bin(
            bin(var("a"), BinaryOperator::Subtract, bin(var("b"), BinaryOperator::Multiply, var("c"))),
            BinaryOperator::Add,
            bin(var("d"), BinaryOperator::Divide, var("e"))
        )]
    );
}

#[test]
fn assignment_is_right_associative() {
    assert_eq!(
        parse("a = b = c;").unwrap(),
        vec![AstNode::Assignment(
            "a".to_string(),
            Box::new(AstNode::Assignment("b".to_string(), var("c")))
        )]
    );
}

#[test]
fn comparison_and_logical_levels() {
    assert_eq!(
        parse("a + 1 < b && c != d || e >= f;").unwrap(),
        vec![*bin(
            bin(
                bin(bin(var("a"), BinaryOperator::Add, num(1)), BinaryOperator::Less, var("b")),
                BinaryOperator::And,
                bin(var("c"), BinaryOperator::NotEquals, var("d"))
            ),
            BinaryOperator::Or,
            bin(var("e"), BinaryOperator::GreaterEqual, var("f"))
        )]
    );
    assert_eq!(
        parse("a == b <= c > d;").unwrap(),
        vec![*bin(
            bin(bin(var("a"), BinaryOperator::Equals, var("b")), BinaryOperator::LessEqual, var("c")),
            BinaryOperator::Greater,
            var("d")
        )]
    );
}

#[test]
fn parentheses_group() {
    assert_eq!(
        parse("(2 + 3) * 4;").unwrap(),
        vec![*bin(bin(num(2), BinaryOperator::Add, num(3)), BinaryOperator::Multiply, num(4))]
    );
}

#[test]
fn arrays() {
    assert_eq!(
        parse("a[i + 1];").unwrap(),
        vec![AstNode::ArrayIndex(var("a"), bin(var("i"), BinaryOperator::Add, num(1)))]
    );
    assert_eq!(
        parse("a[0] = b[1] = 7;").unwrap(),
        vec![AstNode::ArrayAssignment(
            var("a"),
            num(0),
            Box::new(AstNode::ArrayAssignment(var("b"), num(1), num(7)))
        )]
    );
}

#[test]
fn invalid_assignment_target() {
    assert_eq!(message(parse("1 = 2;")), "invalid assignment target");
    assert_eq!(message(parse("a + b = 2;")), "invalid assignment target");
    assert_eq!(message(parse("\"s\" = 2;")), "invalid assignment target");
}

#[test]
fn no_unary_minus() {
    assert_eq!(message(parse("x = -3;")), "unexpected token in expression: -");
    assert_eq!(
        parse("x = 0 - 3;").unwrap(),
        vec![AstNode::Assignment("x".to_string(), bin(num(0), BinaryOperator::Subtract, num(3)))]
    );
}

#[test]
fn statements() {
    let nodes = parse("if (a) { b = 1; } else c = 2; while (a < 3) { a = a + 1; } { } return; return a;")
        .unwrap();
    assert_eq!(
        nodes,
        vec![
            AstNode::If(
                var("a"),
                Box::new(AstNode::Block(vec![AstNode::Assignment("b".to_string(), num(1))])),
                Some(Box::new(AstNode::Assignment("c".to_string(), num(2))))
            ),
            AstNode::While(
                bin(var("a"), BinaryOperator::Less, num(3)),
                Box::new(AstNode::Block(vec![AstNode::Assignment(
                    "a".to_string(),
                    bin(var("a"), BinaryOperator::Add, num(1))
                )]))
            ),
            AstNode::Block(vec![]),
            AstNode::Return(None),
            AstNode::Return(Some(var("a"))),
        ]
    );
}

#[test]
fn else_binds_to_the_nearest_if() {
    assert_eq!(
        parse("if (a) if (b) c; else d;").unwrap(),
        vec![AstNode::If(
            var("a"),
            Box::new(AstNode::If(var("b"), var("c"), Some(var("d")))),
            None
        )]
    );
}

#[test]
fn missing_tokens() {
    assert_eq!(message(parse("x = 1")), "expected ;, found end of file");
    assert_eq!(message(parse("if a) b;")), "expected (, found identifier a");
    assert_eq!(message(parse("while (a b;")), "expected ), found identifier b");
    assert_eq!(message(parse("{ a;")), "unexpected token in expression: end of file");
    assert_eq!(message(parse("a[1;")), "expected ], found ;");
    assert_eq!(message(parse("}")), "unexpected token in expression: }");
}

#[test]
fn lexical_errors_surface_when_the_token_is_read() {
    assert_eq!(message(parse("x = 1; $")), "unexpected character: $");
    assert_eq!(message(parse("$")), "unexpected character: $");
    // the error before the bad character wins
    assert_eq!(message(parse("x 1; $")), "expected ;, found number 1");
}

#[test]
fn function_definition_and_call() {
    let nodes = parse("fn add(a, b) { return a + b; } x = add(1, 2 * 3); add();").unwrap();
    assert_eq!(
        nodes,
        vec![
            AstNode::FunctionDecl(
                "add".to_string(),
                vec!["a".to_string(), "b".to_string()],
                Box::new(AstNode::Block(vec![AstNode::Return(Some(bin(
                    var("a"),
                    BinaryOperator::Add,
                    var("b")
                )))]))
            ),
            AstNode::Assignment(
                "x".to_string(),
                Box::new(AstNode::FunctionCall(
                    "add".to_string(),
                    vec![AstNode::Number(1), *bin(num(2), BinaryOperator::Multiply, num(3))]
                ))
            ),
            AstNode::FunctionCall("add".to_string(), vec![]),
        ]
    );
}

#[test]
fn predeclaration_then_definition() {
    let nodes = parse("fn f(a); fn f(a); x = f(1); fn f(a) { return a; }").unwrap();
    assert_eq!(nodes.len(), 4);
    assert_eq!(nodes[0], AstNode::FunctionPredecl("f".to_string(), vec!["a".to_string()]));
    assert_eq!(nodes[1], nodes[0]);
}

#[test]
fn declared_but_not_defined() {
    assert_eq!(message(parse("fn f();")), "function 'f' declared but not defined");
    assert_eq!(
        message(parse("fn g() { } fn b(); fn a(); fn g2() { }")),
        "function 'b' declared but not defined"
    );
}

#[test]
fn duplicate_definition() {
    assert_eq!(message(parse("fn f() { } fn f() { }")), "function 'f' is already defined");
    assert_eq!(message(parse("fn f(); fn f() { } fn f() { }")), "function 'f' is already defined");
    let error = parse("fn f() { }\nfn f(a) { }").unwrap_err();
    assert_eq!(error.location.line, 2);
}

#[test]
fn predeclaration_after_the_definition() {
    let nodes = parse("fn f() { } fn f(); fn f();").unwrap();
    assert_eq!(nodes.len(), 3);
    assert_eq!(nodes[1], AstNode::FunctionPredecl("f".to_string(), vec![]));
    assert_eq!(nodes[2], nodes[1]);
}

#[test]
fn call_to_undeclared_function() {
    assert_eq!(message(parse("f();")), "call to undeclared function 'f'");
    // a function is declared only once its definition has ended
    assert_eq!(message(parse("fn f() { f(); }")), "call to undeclared function 'f'");
    assert!(parse("fn f(); fn f() { f(); }").is_ok());
    // the call comes before the declaration
    assert_eq!(message(parse("f(); fn f() { }")), "call to undeclared function 'f'");
}

#[test]
fn function_name_is_required() {
    assert_eq!(message(parse("fn (a) { }")), "expected function name");
    assert_eq!(message(parse("fn 3() { }")), "expected function name");
}

#[test]
fn parameter_lists() {
    let decl = |source: &str| match &parse(source).unwrap()[0] {
        AstNode::FunctionDecl(_, params, _) => params.clone(),
        other => panic!("{:?}", other),
    };
    assert_eq!(decl("fn f() { }"), Vec::<String>::new());
    assert_eq!(decl("fn f(a) { }"), vec!["a"]);
    assert_eq!(decl("fn f(a, b, c) { }"), vec!["a", "b", "c"]);
    // a comma that no identifier follows adds nothing
    assert_eq!(decl("fn f(a,) { }"), vec!["a"]);
    assert_eq!(decl("fn f(a,,b) { }"), vec!["a", "b"]);
    assert_eq!(message(parse("fn f(a b) { }")), "expected ), found identifier b");
    assert_eq!(message(parse("fn f(,a) { }")), "expected ), found ,");
}

#[test]
fn inline_assembly_is_parsed() {
    assert_eq!(
        parse("asm \"nop\";").unwrap(),
        vec![AstNode::InlineAsm {
            template: "nop".to_string(),
            outputs: vec![],
            inputs: vec![],
            clobbers: vec![]
        }]
    );
    let source = "asm /* c */ \"syscall\" // c\n : \"=r\"[ret], \"=r\"[two] : \"r\"[num] /* c */ , \"r\"[arg] : \"rcx\", \"r11\" , \"memory\" ;";
    assert_eq!(
        parse(source).unwrap(),
        vec![AstNode::InlineAsm {
            template: "syscall".to_string(),
            outputs: vec![
                ("=r".to_string(), "ret".to_string()),
                ("=r".to_string(), "two".to_string())
            ],
            inputs: vec![("r".to_string(), "num".to_string()), ("r".to_string(), "arg".to_string())],
            clobbers: vec!["rcx".to_string(), "r11".to_string(), "memory".to_string()],
        }]
    );
    assert_eq!(
        parse("asm \"x\" : : \"r\"[a];").unwrap(),
        vec![AstNode::InlineAsm {
            template: "x".to_string(),
            outputs: vec![],
            inputs: vec![("r".to_string(), "a".to_string())],
            clobbers: vec![]
        }]
    );
    assert_eq!(
        parse("asm \"x\" : : : \"cc\";").unwrap(),
        vec![AstNode::InlineAsm {
            template: "x".to_string(),
            outputs: vec![],
            inputs: vec![],
            clobbers: vec!["cc".to_string()]
        }]
    );
}

#[test]
fn inline_assembly_errors() {
    assert_eq!(message(parse("asm nop;")), "expected string literal for asm template");
    assert_eq!(message(parse("asm \"x\" : r[a];")), "expected string literal for constraint");
    assert_eq!(message(parse("asm \"x\" : \"=r\" a;")), "expected [, found identifier a");
    assert_eq!(message(parse("asm \"x\" : \"=r\"[1];")), "expected identifier for output operand");
    assert_eq!(
        message(parse("asm \"x\" : : \"r\"[1];")),
        "expected identifier for input operand"
    );
    assert_eq!(message(parse("asm \"x\" : \"=r\"[a] \"=r\"[b];")), "expected ,, found string \"=r\"");
    assert_eq!(message(parse("asm \"x\" : : : rcx;")), "expected string literal for clobber");
    assert_eq!(message(parse("asm \"x\" : : : \"a\" : \"b\";")), "expected ,, found :");
    assert_eq!(message(parse("asm \"x\"")), "expected ;, found end of file");
}

#[test]
fn errors_point_to_the_start_of_the_offending_token() {
    let error = parse("asm   nop   ;").unwrap_err();
    assert_eq!((error.location.line, error.location.column), (1, 7));
    let error = parse("x = 1 1   ;").unwrap_err();
    assert_eq!((error.location.line, error.location.column), (1, 7));
    let error = parse("x = 1;\n  y = (2 ;\nz").unwrap_err();
    assert_eq!((error.location.line, error.location.column), (2, 10));
    assert_eq!(error.source_line, "  y = (2 ;");
    assert_eq!(
        error.format_plain(),
        "error: expected ), found ;\n  --> /src/main.zed:2:10\n   2 |   y = (2 ;\n     |          ^\n"
    );
    let error = parse("f(1);").unwrap_err();
    assert_eq!((error.location.line, error.location.column), (1, 2));
    let error = parse("fn f();\n").unwrap_err();
    assert_eq!((error.location.line, error.location.column), (2, 1));
    assert_eq!(error.source_line, "");
    // an error of the scanner points to where the scanner stands
    let error = parse("x = \"abc").unwrap_err();
    assert_eq!((error.location.line, error.location.column), (1, 9));
}

#[test]
fn include_splices_nodes_in_place() {
    let nodes = parse_unit(
        "a = 1; @include \"lib.zed\"; c = g();",
        &[("/src/lib.zed", "fn g() { return 2; } b = 2;")],
    )
    .unwrap();
    assert_eq!(nodes.len(), 4);
    assert_eq!(nodes[0], AstNode::Assignment("a".to_string(), num(1)));
    assert!(matches!(nodes[1], AstNode::FunctionDecl(..)));
    assert_eq!(nodes[2], AstNode::Assignment("b".to_string(), num(2)));
    assert_eq!(
        nodes[3],
        AstNode::Assignment("c".to_string(), Box::new(AstNode::FunctionCall("g".to_string(), vec![])))
    );
}

#[test]
fn include_from_the_standard_library() {
    let nodes = parse_unit(
        "@include \"std/io.zed\"; println(\"hi\");",
        &[("/lib/io.zed", "fn println(s); fn println(s) { asm \"syscall\"; }")],
    )
    .unwrap();
    assert_eq!(
        nodes[2],
        AstNode::FunctionCall("println".to_string(), vec![AstNode::StringLiteral("hi".to_string())])
    );
}

#[test]
fn include_request_names_base_and_path() {
    let lexer = Lexer::new("@include \"std/a/b.zed\"; @include \"c.zed\";", "m.zed".to_string());
    let mut parser = Parser::new(lexer, "dir".to_string()).unwrap();
    match parser.parse_program().unwrap() {
        ParseStep::Include(request) => {
            assert_eq!(request.path, "a/b.zed");
            assert!(request.std);
            assert_eq!(request.base, None);
        }
        other => panic!("{:?}", other),
    }
    parser.set_stdlib_path("/opt/zed".to_string());
    match parser.parse_program().unwrap() {
        ParseStep::Include(request) => {
            assert_eq!(request.path, "c.zed");
            assert!(!request.std);
            assert_eq!(request.base, Some("dir".to_string()));
        }
        other => panic!("{:?}", other),
    }
    match parser.parse_program().unwrap() {
        ParseStep::Done(nodes) => assert!(nodes.is_empty()),
        other => panic!("{:?}", other),
    }
}

#[test]
fn nested_includes_resolve_against_the_including_file() {
    let nodes = parse_unit(
        "@include \"sub/a.zed\"; z = 0;",
        &[("/src/sub/a.zed", "@include \"b.zed\"; a = 1;"), ("/src/sub/b.zed", "b = 2;")],
    )
    .unwrap();
    assert_eq!(
        nodes,
        vec![
            AstNode::Assignment("b".to_string(), num(2)),
            AstNode::Assignment("a".to_string(), num(1)),
            AstNode::Assignment("z".to_string(), num(0)),
        ]
    );
}

#[test]
fn include_cycle() {
    let files = [
        ("/src/a.zed", "@include \"b.zed\";\nx = 1;"),
        ("/src/b.zed", "y = 2;\n  @include \"a.zed\";\nz = 3;"),
    ];
    let error = parse_unit("@include \"a.zed\";", &files).unwrap_err();
    match &error.kind {
        ErrorKind::SyntaxError(m) => assert_eq!(m, "circular include detected: /src/a.zed"),
        other => panic!("{:?}", other),
    }
    // the place is that of the offending directive, in the innermost file
    assert_eq!(error.location.file, "/src/b.zed");
    assert_eq!((error.location.line, error.location.column), (2, 3));
    assert_eq!(error.source_line, "  @include \"a.zed\";");
    assert!(error.format_plain().contains("circular include detected"));
}

#[test]
fn two_files_including_each_other() {
    let files = [("/src/b.zed", "@include \"main.zed\";"), ("/src/main.zed", "@include \"b.zed\";")];
    let error = parse_unit("@include \"main.zed\";", &files).unwrap_err();
    assert!(matches!(&error.kind, ErrorKind::SyntaxError(m) if m.contains("circular include detected")));
}

#[test]
fn a_file_is_included_at_most_once() {
    let files = [("/src/a.zed", "x = 1;")];
    let error = parse_unit("@include \"a.zed\"; @include \"a.zed\";", &files).unwrap_err();
    assert!(matches!(&error.kind, ErrorKind::SyntaxError(m) if m == "circular include detected: /src/a.zed"));
}

#[test]
fn include_errors() {
    assert_eq!(
        message(parse_unit("@include \"nope.zed\";", &[])),
        "IO error: failed to resolve path '/src/nope.zed': No such file or directory"
    );
    assert_eq!(message(parse("@include nope;")), "expected string literal after @include");
    assert_eq!(message(parse("@include \"a.zed\"")), "expected ;, found end of file");
    let lexer = Lexer::new("x;", "m.zed".to_string());
    let parser = Parser::new(lexer, ".".to_string()).unwrap();
    let e = parser.include_error(IncludeFailure::NoStdlib("HOME not set".to_string()));
    assert!(matches!(&e.kind, ErrorKind::IOError(m) if m == "couldn't determine stdlib path: HOME not set"));
    let e = parser.include_error(IncludeFailure::Unreadable {
        path: "a.zed".to_string(),
        reason: "denied".to_string(),
    });
    assert!(matches!(&e.kind, ErrorKind::IOError(m) if m == "couldn't read 'a.zed': denied"));
}

#[test]
fn symbols_are_shared_across_files() {
    // declared in the including file, defined in the included one
    assert!(parse_unit("fn f(); @include \"def.zed\"; f();", &[("/src/def.zed", "fn f() { }")]).is_ok());
    // declared in the included file, defined after the include
    assert!(parse_unit("@include \"decl.zed\"; fn f() { }", &[("/src/decl.zed", "fn f();")]).is_ok());
    // defined twice over two files
    assert_eq!(
        message(parse_unit("fn f() { } @include \"def.zed\";", &[("/src/def.zed", "fn f() { }")])),
        "function 'f' is already defined"
    );
    // never defined
    assert_eq!(
        message(parse_unit("@include \"decl.zed\";", &[("/src/decl.zed", "fn f();")])),
        "function 'f' declared but not defined"
    );
}

#[test]
fn error_in_an_included_file_names_that_file() {
    let error = parse_unit("@include \"bad.zed\";", &[("/src/bad.zed", "x = ;\n")]).unwrap_err();
    assert_eq!(error.location.file, "/src/bad.zed");
    assert_eq!(error.source_line, "x = ;");
    let error = parse_unit("@include \"bad.zed\";", &[("/src/bad.zed", "\n ?")]).unwrap_err();
    assert_eq!(error.location.file, "/src/bad.zed");
    assert_eq!((error.location.line, error.location.column), (2, 2));
}
