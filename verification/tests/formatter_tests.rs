use zedc::formatter::{format_source, tidy_code_line, Config};

fn fmt(source: &str) -> String {
    format_source(source, &Config { indent_spaces: 4, max_width: 100 }).unwrap()
}

#[test]
fn empty_source_is_one_line_feed() {
    assert_eq!(fmt(""), "\n");
    assert_eq!(fmt("\n"), "\n");
    assert_eq!(fmt("\n\n"), "\n\n");
    assert_eq!(fmt("   \n"), "\n");
}

#[test]
fn operators_are_set_apart() {
    assert_eq!(fmt("x=1+2;"), "x = 1 + 2 ;\n");
    assert_eq!(fmt("a==b"), "a == b\n");
    assert_eq!(fmt("a<=b>=c!=d"), "a <= b >= c != d\n");
    assert_eq!(fmt("a&&b||c"), "a && b || c\n");
    assert_eq!(fmt("a  *  b/c-d"), "a * b / c - d\n");
    assert_eq!(fmt("x = -1;"), "x = - 1 ;\n");
    assert_eq!(fmt("a<b>c!d"), "a < b > c ! d\n");
}

#[test]
fn whitespace_shrinks_and_the_semicolon_stands_alone() {
    assert_eq!(fmt("  return   x ;  "), "return x  ;\n");
    assert_eq!(fmt("f(a,   b);"), "f(a, b) ;\n");
    assert_eq!(fmt(";"), " ;\n");
    assert_eq!(fmt("a;;"), "a; ;\n");
    assert_eq!(fmt("a\u{a0}b\tc"), "a b c\n");
}

#[test]
fn braces_set_the_indentation() {
    let source = "fn f(a) {\nif (a) {\nreturn 1;\n}\nreturn 2;\n}\nx=f(1);";
    assert_eq!(
        fmt(source),
        "fn f(a) {\n    if (a) {\n        return 1 ;\n    }\n    return 2 ;\n}\nx = f(1) ;\n"
    );
    let two = format_source("{\n{\na;\n}\n}", &Config { indent_spaces: 2, max_width: 80 }).unwrap();
    assert_eq!(two, "{\n  {\n    a ;\n  }\n}\n");
    let none = format_source("{\na;\n}", &Config { indent_spaces: 0, max_width: 80 }).unwrap();
    assert_eq!(none, "{\na ;\n}\n");
}

#[test]
fn closing_brace_at_depth_zero_stays_at_zero() {
    assert_eq!(fmt("}\n}\na;"), "}\n}\na ;\n");
    assert_eq!(fmt("} else {\nb;\n}"), "} else {\n    b ;\n}\n");
}

#[test]
fn line_comments_keep_their_text() {
    assert_eq!(fmt("  // a+b  "), "  // a+b  \n");
    assert_eq!(fmt("{\n// c==d\n}"), "{\n    // c==d\n}\n");
    assert_eq!(fmt("x=1; // c"), "x = 1; / / c\n");
}

#[test]
fn block_comments_are_indented_and_kept() {
    assert_eq!(fmt("/* a+b */\nx=1;"), "/* a+b */\nx = 1 ;\n");
    assert_eq!(
        fmt("{\n/* one\n  two=2\n*/\nx;\n}"),
        "{\n    /* one\n      two=2\n    */\n    x ;\n}\n"
    );
    // a comment that never closes takes the rest of the file
    assert_eq!(fmt("/* a\nb=1;\n{"), "/* a\nb=1;\n{\n");
}

#[test]
fn inline_assembly_is_indented_and_kept() {
    assert_eq!(
        fmt("{\nasm \"mov  %rax\"\n  : \"=r\"[a]\n  : ;\nx=1;\n}"),
        "{\n    asm \"mov  %rax\"\n      : \"=r\"[a]\n      : ;\n    x = 1 ;\n}\n"
    );
    assert_eq!(fmt("asm \"nop\";\na=b;"), "asm \"nop\";\na = b ;\n");
    // a semicolon in a line comment does not end the statement
    assert_eq!(fmt("asm \"a\"\n// not yet;\n: ;\nz=1;"), "asm \"a\"\n// not yet;\n: ;\nz = 1 ;\n");
}

#[test]
fn line_endings_become_line_feeds() {
    assert_eq!(fmt("a=1;\r\nb=2;\r\n"), "a = 1 ;\nb = 2 ;\n");
    assert_eq!(fmt("a\r\r\nb"), "a\nb\n");
    assert_eq!(fmt("a\n\nb\n"), "a\n\nb\n");
}

#[test]
fn a_semicolon_that_stands_alone_is_split_from_an_empty_word() {
    let once = fmt("if(a<b){\nx=1;\n}");
    assert_eq!(once, "if(a < b){\n    x = 1 ;\n}\n");
    assert_eq!(fmt(&once), "if(a < b){\n    x = 1  ;\n}\n");
}

#[test]
fn tidy_joins_words_with_single_spaces() {
    assert_eq!(tidy_code_line(""), "");
    assert_eq!(tidy_code_line("   "), "");
    assert_eq!(tidy_code_line("a"), "a");
    assert_eq!(tidy_code_line("  a   b \t c  "), "a b c");
    assert_eq!(tidy_code_line("a b;"), "a b ;");
    assert_eq!(tidy_code_line("a ;"), "a  ;");
    assert_eq!(tidy_code_line("a; b"), "a; b");
    assert_eq!(tidy_code_line(";"), " ;");
}
