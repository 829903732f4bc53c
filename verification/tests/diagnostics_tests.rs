use zedc::colors::{
    error_location_style, error_pointer_style, error_source_style, error_style, Color, Style,
};
use zedc::entry::{is_main_file, is_main_name};
use zedc::error::{CompilerError, ErrorKind, SourceLocation};
use zedc::text::{chars_of, find, push_chars, push_decimal, push_decimal_int, push_trimmed, split_lines};

fn at(line: usize, column: usize) -> SourceLocation {
    SourceLocation { line, column, file: "src/main.zed".to_string() }
}

#[test]
fn style_without_codes_leaves_text_alone() {
    assert_eq!(Style::new().apply("plain"), "plain");
    assert_eq!(Style::new().apply(""), "");
}

#[test]
fn style_codes_are_joined_by_semicolons() {
    assert_eq!(Style::new().bold().apply("x"), "\x1b[1mx\x1b[0m");
    assert_eq!(Style::new().fg(Color::Red).apply("x"), "\x1b[31mx\x1b[0m");
    assert_eq!(Style::new().bg(Color::Blue).apply("x"), "\x1b[44mx\x1b[0m");
    assert_eq!(Style::new().bold().fg(Color::Cyan).apply("x"), "\x1b[1;36mx\x1b[0m");
    assert_eq!(
        Style::new().bg(Color::BrightWhite).fg(Color::BrightBlack).bold().apply("x"),
        "\x1b[1;90;107mx\x1b[0m"
    );
    assert_eq!(Style::new().fg(Color::Green).bg(Color::Yellow).apply("x"), "\x1b[32;43mx\x1b[0m");
    assert_eq!(Style::new().bold().bg(Color::Magenta).apply("x"), "\x1b[1;45mx\x1b[0m");
}

#[test]
fn every_colour_has_its_codes() {
    let colours = [
        (Color::Black, 30),
        (Color::Red, 31),
        (Color::Green, 32),
        (Color::Yellow, 33),
        (Color::Blue, 34),
        (Color::Magenta, 35),
        (Color::Cyan, 36),
        (Color::White, 37),
        (Color::BrightBlack, 90),
        (Color::BrightRed, 91),
        (Color::BrightGreen, 92),
        (Color::BrightYellow, 93),
        (Color::BrightBlue, 94),
        (Color::BrightMagenta, 95),
        (Color::BrightCyan, 96),
        (Color::BrightWhite, 97),
    ];
    for (colour, code) in colours {
        assert_eq!(Style::new().fg(colour).apply("t"), format!("\x1b[{}mt\x1b[0m", code));
        assert_eq!(Style::new().bg(colour).apply("t"), format!("\x1b[{}mt\x1b[0m", code + 10));
    }
}

#[test]
fn error_styles() {
    assert_eq!(error_style().apply("e"), "\x1b[1;31me\x1b[0m");
    assert_eq!(error_location_style().apply("e"), "\x1b[1;36me\x1b[0m");
    assert_eq!(error_source_style().apply("e"), "e");
    assert_eq!(error_pointer_style().apply("e"), "\x1b[1;31me\x1b[0m");
}

#[test]
fn plain_diagnostic() {
    let error = CompilerError::new(
        ErrorKind::SyntaxError("unexpected character: $".to_string()),
        at(3, 5),
        "x = $;".to_string(),
    );
    assert_eq!(
        error.format_plain(),
        "error: unexpected character: $\n  --> src/main.zed:3:5\n   3 | x = $;\n     |     ^\n"
    );
}

#[test]
fn coloured_diagnostic() {
    let error = CompilerError::new(
        ErrorKind::UnexpectedToken { expected: ";".to_string(), found: "end of file".to_string() },
        at(12, 1),
        "y".to_string(),
    );
    assert_eq!(
        error.format_error(),
        "\x1b[1;31merror: expected ;, found end of file\n\x1b[0m\x1b[1;36m  --> src/main.zed:12:1\n\x1b[0m  12 | y\n\x1b[1;31m     | ^\x1b[0m\n"
    );
}

#[test]
fn line_number_is_right_aligned_in_four_columns() {
    let line_of = |line: usize| {
        let error = CompilerError::new(ErrorKind::SyntaxError("m".to_string()), at(line, 1), "s".to_string());
        error.format_plain().lines().nth(2).unwrap().to_string()
    };
    assert_eq!(line_of(0), "   0 | s");
    assert_eq!(line_of(9), "   9 | s");
    assert_eq!(line_of(10), "  10 | s");
    assert_eq!(line_of(999), " 999 | s");
    assert_eq!(line_of(1000), "1000 | s");
    assert_eq!(line_of(123456), "123456 | s");
}

#[test]
fn messages_of_every_kind() {
    let message = |kind: ErrorKind| {
        let error = CompilerError::new(kind, at(1, 1), String::new());
        error.format_plain().lines().next().unwrap().to_string()
    };
    assert_eq!(
        message(ErrorKind::UnexpectedToken { expected: "a".to_string(), found: "b".to_string() }),
        "error: expected a, found b"
    );
    assert_eq!(message(ErrorKind::UndefinedVariable("v".to_string())), "error: undefined variable `v`");
    assert_eq!(message(ErrorKind::SyntaxError("bad".to_string())), "error: bad");
    assert_eq!(message(ErrorKind::InvalidOperator("%".to_string())), "error: invalid operator `%`");
    assert_eq!(message(ErrorKind::IOError("gone".to_string())), "error: IO error: gone");
}

#[test]
fn decimal_numerals() {
    let show = |n: u128| {
        let mut s = String::from("<");
        push_decimal(&mut s, n);
        s
    };
    assert_eq!(show(0), "<0");
    assert_eq!(show(7), "<7");
    assert_eq!(show(10), "<10");
    assert_eq!(show(1234567890), "<1234567890");
    assert_eq!(show(u128::MAX), format!("<{}", u128::MAX));
    let show_int = |n: i64| {
        let mut s = String::new();
        push_decimal_int(&mut s, n);
        s
    };
    assert_eq!(show_int(0), "0");
    assert_eq!(show_int(-1), "-1");
    assert_eq!(show_int(i64::MAX), "9223372036854775807");
    assert_eq!(show_int(i64::MIN), "-9223372036854775808");
}

#[test]
fn characters_and_ranges() {
    let chars = chars_of("héllo");
    assert_eq!(chars, vec!['h', 'é', 'l', 'l', 'o']);
    let mut out = String::from("[");
    push_chars(&mut out, &chars, 1, 4);
    assert_eq!(out, "[éll");
    push_chars(&mut out, &chars, 2, 2);
    assert_eq!(out, "[éll");
}

#[test]
fn trimming_follows_unicode_whitespace() {
    let trimmed = |text: &str| {
        let mut out = String::new();
        push_trimmed(&mut out, &chars_of(text));
        out
    };
    assert_eq!(trimmed("  a b \t\r\n"), "a b");
    assert_eq!(trimmed("\u{a0}\u{2003}x\u{3000}"), "x");
    assert_eq!(trimmed("   "), "");
    assert_eq!(trimmed(""), "");
    assert_eq!(trimmed("x"), "x");
}

#[test]
fn lines_are_split_as_the_standard_library_does() {
    for text in ["", "a", "a\n", "a\nb", "a\r\nb\r\n", "\n", "\n\n", "a\rb\n", "a\n\r", "x\r", "\r\n", "a\n\nb"] {
        let ours: Vec<String> =
            split_lines(&chars_of(text)).into_iter().map(|l| l.into_iter().collect()).collect();
        let theirs: Vec<String> = text.lines().map(String::from).collect();
        assert_eq!(ours, theirs, "{:?}", text);
    }
}

#[test]
fn find_gives_the_first_index_or_the_length() {
    let names: Vec<String> = ["a", "b", "a", "c"].iter().map(|s| s.to_string()).collect();
    assert_eq!(find(&names, "a"), 0);
    assert_eq!(find(&names, "b"), 1);
    assert_eq!(find(&names, "c"), 3);
    assert_eq!(find(&names, "d"), 4);
    assert_eq!(find(&Vec::new(), "a"), 0);
}

#[test]
fn entry_file_is_named_main_zed() {
    assert!(is_main_name(Some("main.zed")));
    assert!(!is_main_name(Some("Main.zed")));
    assert!(!is_main_name(Some("main.zed.bak")));
    assert!(!is_main_name(None));
    assert!(is_main_file("main.zed"));
    assert!(is_main_file("src/main.zed"));
    assert!(!is_main_file("src/lib.zed"));
    assert!(!is_main_file("main.zed/other.zed"));
    assert!(!is_main_file("src/notmain.zed"));
    assert!(is_main_file("proj/src/main.zed"));
    assert!(is_main_file("/main.zed"));
    assert!(!is_main_file(""));
}
