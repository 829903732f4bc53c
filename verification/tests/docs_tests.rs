use zedc::docs::{clean_doc_comment, html_escape, parse_params, Documentation, Function, Include};

#[test]
fn html_escape_writes_the_five_entities() {
    assert_eq!(html_escape("&"), "&amp;");
    assert_eq!(html_escape("<"), "&lt;");
    assert_eq!(html_escape(">"), "&gt;");
    assert_eq!(html_escape("\""), "&quot;");
    assert_eq!(html_escape("'"), "&#39;");
}

#[test]
fn html_escape_leaves_other_text_alone() {
    assert_eq!(html_escape(""), "");
    assert_eq!(html_escape("fn add(a, b)"), "fn add(a, b)");
    assert_eq!(html_escape("größe → 3"), "größe → 3");
}

#[test]
fn html_escape_does_not_escape_its_own_entities() {
    assert_eq!(html_escape("a < b && c > \"d\""), "a &lt; b &amp;&amp; c &gt; &quot;d&quot;");
    assert_eq!(html_escape("&lt;"), "&amp;lt;");
    assert_eq!(html_escape("it's"), "it&#39;s");
}

#[test]
fn html_escape_agrees_with_one_replacement_after_another() {
    let inputs = ["", "&", "&&", "<&>", "x = \"a\" + 'b';", "&amp;", "<<>>", "a&b<c>d\"e'f"];
    for input in inputs {
        let expected = input
            .replace('&', "&amp;")
            .replace('<', "&lt;")
            .replace('>', "&gt;")
            .replace('"', "&quot;")
            .replace('\'', "&#39;");
        assert_eq!(html_escape(input), expected, "input {:?}", input);
    }
}

#[test]
fn parse_params_splits_at_commas_and_trims() {
    assert_eq!(parse_params("a, b, c"), vec!["a", "b", "c"]);
    assert_eq!(parse_params("  x  "), vec!["x"]);
    assert_eq!(parse_params("a,b"), vec!["a", "b"]);
    assert_eq!(parse_params("first second, third"), vec!["first second", "third"]);
}

#[test]
fn parse_params_leaves_out_empty_pieces() {
    assert_eq!(parse_params(""), Vec::<String>::new());
    assert_eq!(parse_params("   "), Vec::<String>::new());
    assert_eq!(parse_params(","), Vec::<String>::new());
    assert_eq!(parse_params("a,,b"), vec!["a", "b"]);
    assert_eq!(parse_params(", a ,"), vec!["a"]);
    assert_eq!(parse_params("a, \t\n, b"), vec!["a", "b"]);
}

#[test]
fn parse_params_agrees_with_split_trim_and_filter() {
    let inputs = ["", " ", ",", ",,", "a", "a,", ",a", " a , b ", "a,,b,", "x y , z", "\ta\n,\r\nb"];
    for input in inputs {
        let expected: Vec<String> = input
            .split(',')
            .map(|p| p.trim().to_string())
            .filter(|p| !p.is_empty())
            .collect();
        assert_eq!(parse_params(input), expected, "input {:?}", input);
    }
}

#[test]
fn clean_doc_comment_takes_the_markers_and_stars_away() {
    assert_eq!(clean_doc_comment("/** Adds two numbers. */"), "Adds two numbers.");
    assert_eq!(
        clean_doc_comment("/**\n* Adds two numbers.\n* Returns the sum.\n*/"),
        "Adds two numbers.\nReturns the sum."
    );
    assert_eq!(clean_doc_comment("/***/"), "");
    assert_eq!(clean_doc_comment("/** */"), "");
    assert_eq!(clean_doc_comment(""), "");
}

#[test]
fn clean_doc_comment_takes_stars_only_from_the_start_of_a_line() {
    assert_eq!(
        clean_doc_comment("/**\n * Adds two numbers.\n * Returns the sum.\n */"),
        "* Adds two numbers.\n* Returns the sum."
    );
    assert_eq!(clean_doc_comment("/**\n ** bold **\n */"), "** bold **");
    assert_eq!(clean_doc_comment("/**\n** bold **\n*/"), "bold **");
    assert_eq!(clean_doc_comment("/**   *x */"), "*x");
}

#[test]
fn clean_doc_comment_keeps_inner_lines_and_inner_stars() {
    assert_eq!(clean_doc_comment("/**\n* first\n*\n* third\n*/"), "first\n\nthird");
    assert_eq!(clean_doc_comment("/** a * b */"), "a * b");
}

#[test]
fn clean_doc_comment_takes_repeated_markers_away() {
    assert_eq!(clean_doc_comment("/**/**x*/*/"), "x");
    assert_eq!(clean_doc_comment("/**/"), "/");
    assert_eq!(clean_doc_comment("no markers"), "no markers");
    assert_eq!(clean_doc_comment("*/"), "");
}

#[test]
fn clean_doc_comment_agrees_with_the_chain_of_trims() {
    let inputs = [
        "",
        "/**",
        "*/",
        "/**/",
        "/***/",
        "/****/",
        "/** one */",
        "/**\n * one\n * two\n */",
        "/**\r\n * one\r\n * two\r\n */",
        "/**\n\n\n*/",
        "/** a\n   * b\n\t* c */",
        "/**/**x*/*/",
        "  /** not at the start */",
        "/** trailing */  ",
        "/**\n *** stars\n * x * y\n */",
        "/** \n*/",
        "plain\n* text\n",
    ];
    for input in inputs {
        let expected = input
            .trim_start_matches("/**")
            .trim_end_matches("*/")
            .lines()
            .map(|line| line.trim_start_matches('*').trim_start().to_string())
            .collect::<Vec<_>>()
            .join("\n")
            .trim()
            .to_string();
        assert_eq!(clean_doc_comment(input), expected, "input {:?}", input);
    }
}

#[test]
fn documentation_holds_what_was_collected() {
    let function = Function {
        name: "add".to_string(),
        params: parse_params("a, b"),
        doc_comments: vec![clean_doc_comment("/** Adds two numbers. */")],
        is_public: true,
        source: html_escape("fn add(a, b) { return a + b; }"),
    };
    let directive = Include { path: "std/io.zed".to_string(), is_std: true };
    let documentation = Documentation {
        functions: vec![function],
        includes: vec![directive],
        module_docs: vec!["Arithmetic.".to_string()],
    };
    assert_eq!(documentation.functions.len(), 1);
    assert_eq!(documentation.functions[0].name, "add");
    assert_eq!(documentation.functions[0].params, vec!["a", "b"]);
    assert_eq!(documentation.functions[0].doc_comments, vec!["Adds two numbers."]);
    assert!(documentation.functions[0].is_public);
    assert_eq!(documentation.functions[0].source, "fn add(a, b) { return a + b; }");
    assert_eq!(documentation.includes[0].path, "std/io.zed");
    assert!(documentation.includes[0].is_std);
    assert_eq!(documentation.module_docs, vec!["Arithmetic."]);
}
