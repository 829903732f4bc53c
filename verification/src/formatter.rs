//! The source formatter: one statement per line as written, indented by
//! the depth of the braces around it, with single spaces around operators.
//!
//! Block comments and inline assembly are indented and otherwise left as
//! they are. Operators are found with a regular expression.

use vstd::prelude::*;
use vstd::string::*;
use crate::text::{
    chars_of, ends_with, is_space, lines_of, push_chars, split_lines, starts_with, trim,
    trim_range, trim_start,
};

verus! {

/// How to format.
#[derive(Debug)]
pub struct Config {
    /// The number of spaces for one level of indentation.
    pub indent_spaces: usize,
    /// The width that lines should keep to. It is not enforced.
    pub max_width: usize,
}

/// Why a source could not be formatted.
#[derive(Debug, PartialEq, Eq)]
pub enum FormatError {
    /// The pattern that finds the operators was not accepted.
    Pattern,
}

/// The error type of the `regex` crate, carried through as it is.
#[verifier::external_type_specification]
#[verifier::external_body]
pub struct ExRegexError(regex::Error);

/// What `Regex::replace_all` makes of a text, for a pattern and a
/// replacement: every match of the pattern, from left to right and without
/// overlap, is replaced, with `$1` in the replacement standing for the first
/// group of the match. Nothing where the pattern is not accepted.
pub uninterp spec fn replaced(
    pattern: Seq<char>,
    text: Seq<char>,
    replacement: Seq<char>,
) -> Option<Seq<char>>;

/// `Regex::new` and `Regex::replace_all` of the `regex` crate. The claim:
/// the result depends on the pattern, the text and the replacement alone. It
/// is an error where `Regex::new` does not accept the pattern, and otherwise
/// the text that `replaced` names.
#[verifier::external_body]
fn replace_all(pattern: &str, text: &str, replacement: &str) -> (r: Result<String, regex::Error>)
    ensures
        match r {
            Ok(out) => replaced(pattern@, text@, replacement@) == Some(out@),
            Err(_) => replaced(pattern@, text@, replacement@) is None,
        },
{
    let re = regex::Regex::new(pattern)?;
    Ok(re.replace_all(text, replacement).into_owned())
}

/// The text from index `i` on with every carriage return before a line feed
/// left out.
pub open spec fn unix_newlines(s: Seq<char>, i: int) -> Seq<char>
    decreases s.len() - i,
{
    if i < 0 || i >= s.len() {
        Seq::empty()
    } else if s[i] == '\r' && i + 1 < s.len() && s[i + 1] == '\n' {
        seq!['\n'] + unix_newlines(s, i + 2)
    } else {
        seq![s[i]] + unix_newlines(s, i + 1)
    }
}

/// The words of the text from index `i` on: the maximal runs of characters
/// that are no whitespace. A word that began before `i` began at `start`.
pub open spec fn words_from(s: Seq<char>, i: int, start: Option<int>) -> Seq<Seq<char>>
    decreases s.len() - i,
{
    let open = match start {
        Some(from) => seq![s.subrange(from, i)],
        None => Seq::empty(),
    };
    if i < 0 || i >= s.len() {
        open
    } else if is_space(s[i]) {
        open + words_from(s, i + 1, None)
    } else {
        words_from(
            s,
            i + 1,
            match start {
                Some(from) => start,
                None => Some(i),
            },
        )
    }
}

/// The words of a text, as `str::split_whitespace` gives them.
pub open spec fn words(s: Seq<char>) -> Seq<Seq<char>> {
    words_from(s, 0, None)
}

/// The first `k` of the parts, joined by single spaces.
pub open spec fn joined(parts: Seq<Seq<char>>, k: nat) -> Seq<char>
    decreases k,
{
    if k == 0 || k > parts.len() {
        Seq::empty()
    } else if k == 1 {
        parts[0]
    } else {
        joined(parts, (k - 1) as nat) + seq![' '] + parts[k - 1]
    }
}

/// The parts of a line with a semicolon at the end of the last part split
/// off as a part of its own.
pub open spec fn split_semicolon(parts: Seq<Seq<char>>) -> Seq<Seq<char>> {
    if parts.len() > 0 && parts.last().len() > 0 && parts.last().last() == ';' {
        parts.drop_last().push(parts.last().drop_last()).push(seq![';'])
    } else {
        parts
    }
}

/// A line of code whose operators are set apart, tidied: its words joined
/// by single spaces, the closing semicolon a word of its own.
pub open spec fn tidy(spaced: Seq<char>) -> Seq<char> {
    let parts = split_semicolon(words(spaced));
    joined(parts, parts.len())
}

/// The pattern of the operators: one of `+ - * / = < > !` with or without a
/// following `=`, or `&&`, or `||`.
pub open spec fn operators() -> Seq<char> {
    r"([+\-*/=<>!]=?|&&|\|\|)"@
}

/// A line of code, formatted: a line comment stays as it is; any other line
/// is trimmed, its operators are set apart by spaces, and it is tidied.
/// Nothing where the pattern of the operators is not accepted.
pub open spec fn format_code_line(line: Seq<char>) -> Option<Seq<char>> {
    if starts_with(trim(line), "//"@) {
        Some(line)
    } else {
        match replaced(operators(), trim(line), " $1 "@) {
            Some(spaced) => Some(tidy(spaced)),
            None => None,
        }
    }
}

/// What the formatter holds between two lines.
pub struct FormatState {
    /// The formatted text so far.
    pub out: Seq<char>,
    /// The depth of the braces around the next line.
    pub indent: nat,
    /// Whether the next line lies in a block comment.
    pub in_comment: bool,
    /// Whether the next line lies in an inline assembly statement.
    pub in_asm: bool,
}

/// `n` spaces.
pub open spec fn spaces(n: nat) -> Seq<char> {
    Seq::new(n, |i: int| ' ')
}

/// The state after a line was written at the current indentation.
pub open spec fn write_indented(st: FormatState, width: nat, content: Seq<char>) -> FormatState {
    FormatState { out: st.out + spaces(st.indent * width) + content + seq!['\n'], ..st }
}

/// The state after one line of the source.
///
/// An empty line stays empty. A block comment, from the line that starts
/// with `/*` to the one that ends with `*/`, and an inline assembly
/// statement, from the line that starts with `asm` to the one that holds a
/// semicolon outside a line comment, are written as they are. A line that
/// starts with `}` closes one level before it is written, and a line that
/// ends with `{` opens one after it.
pub open spec fn format_line(st: FormatState, width: nat, line: Seq<char>) -> Option<FormatState> {
    let trimmed = trim(line);
    if trimmed.len() == 0 {
        Some(FormatState { out: st.out.push('\n'), ..st })
    } else {
        let in_comment = st.in_comment || starts_with(trimmed, "/*"@);
        if in_comment {
            Some(
                FormatState {
                    in_comment: !ends_with(trimmed, "*/"@),
                    ..write_indented(st, width, line)
                },
            )
        } else {
            let in_asm = st.in_asm || starts_with(trimmed, "asm"@);
            if in_asm {
                Some(
                    FormatState {
                        in_asm: !(line.contains(';') && !starts_with(trim_start(line), "//"@)),
                        ..write_indented(st, width, line)
                    },
                )
            } else {
                let indent = if trimmed[0] == '}' && st.indent > 0 {
                    (st.indent - 1) as nat
                } else {
                    st.indent
                };
                match format_code_line(line) {
                    Some(formatted) => {
                        let st1 = write_indented(FormatState { indent, ..st }, width, formatted);
                        Some(
                            FormatState {
                                indent: if trimmed.last() == '{' {
                                    indent + 1
                                } else {
                                    indent
                                },
                                ..st1
                            },
                        )
                    },
                    None => None,
                }
            }
        }
    }
}

/// The state after the first `k` lines.
pub open spec fn format_lines(
    st: FormatState,
    width: nat,
    lines: Seq<Seq<char>>,
    k: nat,
) -> Option<FormatState>
    decreases k,
{
    if k == 0 || k > lines.len() {
        Some(st)
    } else {
        match format_lines(st, width, lines, (k - 1) as nat) {
            Some(st1) => format_line(st1, width, lines[k - 1]),
            None => None,
        }
    }
}

/// The formatted source: its lines formatted one after the other, line
/// endings turned into line feeds, and a line feed at the end.
pub open spec fn format(source: Seq<char>, width: nat) -> Option<Seq<char>> {
    let lines = lines_of(unix_newlines(source, 0));
    let start = FormatState { out: Seq::empty(), indent: 0, in_comment: false, in_asm: false };
    match format_lines(start, width, lines, lines.len()) {
        Some(st) => Some(
            if st.out.len() > 0 && st.out.last() == '\n' {
                st.out
            } else {
                st.out.push('\n')
            },
        ),
        None => None,
    }
}

/// Tells whether `v[a..b]` starts with `prefix`.
fn range_starts_with(v: &Vec<char>, a: usize, b: usize, prefix: &str) -> (r: bool)
    requires
        a <= b <= v.len(),
    ensures
        r == starts_with(v@.subrange(a as int, b as int), prefix@),
{
    let p = chars_of(prefix);
    if p.len() > b - a {
        return false;
    }
    let mut i: usize = 0;
    while i < p.len()
        invariant
            i <= p.len() <= b - a,
            a <= b <= v.len(),
            p@ == prefix@,
            forall|j: int| 0 <= j < i ==> v@[a + j] == p@[j],
        decreases p.len() - i,
    {
        if v[a + i] != p[i] {
            assert(v@.subrange(a as int, b as int).subrange(0, p.len() as int)[i as int] != p@[i as int]);
            return false;
        }
        i += 1;
    }
    assert(v@.subrange(a as int, b as int).subrange(0, p.len() as int) =~= p@);
    true
}

/// Tells whether `v[a..b]` ends with `suffix`.
fn range_ends_with(v: &Vec<char>, a: usize, b: usize, suffix: &str) -> (r: bool)
    requires
        a <= b <= v.len(),
    ensures
        r == ends_with(v@.subrange(a as int, b as int), suffix@),
{
    let p = chars_of(suffix);
    if p.len() > b - a {
        return false;
    }
    let from = b - p.len();
    let ghost s = v@.subrange(a as int, b as int);
    let mut i: usize = 0;
    while i < p.len()
        invariant
            i <= p.len() <= b - a,
            a <= from <= b <= v.len(),
            from == b - p.len(),
            p@ == suffix@,
            s == v@.subrange(a as int, b as int),
            forall|j: int| 0 <= j < i ==> v@[from + j] == p@[j],
        decreases p.len() - i,
    {
        if v[from + i] != p[i] {
            assert(s.subrange(s.len() - p.len(), s.len() as int)[i as int] != p@[i as int]);
            return false;
        }
        i += 1;
    }
    assert(s.subrange(s.len() - p.len(), s.len() as int) =~= p@);
    true
}

/// Tells whether a character occurs in `v`.
fn has_char(v: &Vec<char>, c: char) -> (r: bool)
    ensures
        r == v@.contains(c),
{
    let mut i: usize = 0;
    while i < v.len()
        invariant
            i <= v.len(),
            forall|j: int| 0 <= j < i ==> v@[j] != c,
        decreases v.len() - i,
    {
        if v[i] == c {
            return true;
        }
        i += 1;
    }
    false
}

/// The text with every carriage return before a line feed left out.
fn to_unix(v: &Vec<char>) -> (out: Vec<char>)
    ensures
        out@ == unix_newlines(v@, 0),
{
    let n = v.len();
    let mut out: Vec<char> = Vec::new();
    let mut i: usize = 0;
    while i < n
        invariant
            i <= n == v.len(),
            out@ + unix_newlines(v@, i as int) == unix_newlines(v@, 0),
        decreases n - i,
    {
        if v[i] == '\r' && i + 1 < n && v[i + 1] == '\n' {
            assert(out@.push('\n') + unix_newlines(v@, i + 2) =~= out@ + unix_newlines(
                v@,
                i as int,
            ));
            out.push('\n');
            i += 2;
        } else {
            assert(out@.push(v@[i as int]) + unix_newlines(v@, i + 1) =~= out@ + unix_newlines(
                v@,
                i as int,
            ));
            out.push(v[i]);
            i += 1;
        }
    }
    assert(out@ + Seq::<char>::empty() =~= out@);
    out
}

/// The views of a list of character vectors.
pub open spec fn rows(v: Seq<Vec<char>>) -> Seq<Seq<char>> {
    Seq::new(v.len(), |i: int| v[i]@)
}

/// The words of a text.
fn split_words(v: &Vec<char>) -> (parts: Vec<Vec<char>>)
    ensures
        rows(parts@) == words(v@),
{
    let n = v.len();
    let mut parts: Vec<Vec<char>> = Vec::new();
    let mut current: Vec<char> = Vec::new();
    let mut open = false;
    let ghost mut start: Option<int> = None;
    let mut i: usize = 0;
    assert(rows(parts@) =~= Seq::empty());
    while i < n
        invariant
            i <= n == v.len(),
            open == (start is Some),
            !open ==> current@.len() == 0,
            start matches Some(from) ==> 0 <= from < i && current@ == v@.subrange(from, i as int),
            rows(parts@) + words_from(v@, i as int, start) == words(v@),
        decreases n - i,
    {
        let c = v[i];
        if c.is_whitespace() {
            if open {
                proof {
                    assert(rows(parts@.push(current)) =~= rows(parts@).push(current@));
                    assert(rows(parts@).push(current@) + words_from(v@, i + 1, None) =~= rows(
                        parts@,
                    ) + words_from(v@, i as int, start));
                    start = None;
                }
                parts.push(current);
                current = Vec::new();
                open = false;
            } else {
                assert(rows(parts@) + words_from(v@, i + 1, None) =~= rows(parts@) + words_from(
                    v@,
                    i as int,
                    start,
                ));
            }
        } else {
            proof {
                if !open {
                    start = Some(i as int);
                    assert(current@ =~= v@.subrange(i as int, i as int));
                }
            }
            current.push(c);
            open = true;
            assert(current@ =~= v@.subrange(start->0, i + 1));
        }
        i += 1;
    }
    if open {
        proof {
            assert(rows(parts@.push(current)) =~= rows(parts@).push(current@));
            assert(rows(parts@).push(current@) =~= rows(parts@) + words_from(v@, n as int, start));
        }
        parts.push(current);
    } else {
        assert(rows(parts@) + words_from(v@, n as int, start) =~= rows(parts@));
    }
    parts
}

/// A line of code whose operators are set apart, tidied: its words joined by
/// single spaces, a closing semicolon as a word of its own.
pub fn tidy_code_line(spaced: &str) -> (out: String)
    ensures
        out@ == tidy(spaced@),
{
    let chars = chars_of(spaced);
    let mut parts = split_words(&chars);
    let ghost given = rows(parts@);
    let n = parts.len();
    if n > 0 && parts[n - 1].len() > 0 && parts[n - 1][parts[n - 1].len() - 1] == ';' {
        let mut last = parts.pop().unwrap();
        last.pop();
        let mut semicolon: Vec<char> = Vec::new();
        semicolon.push(';');
        parts.push(last);
        parts.push(semicolon);
        assert(rows(parts@) =~= split_semicolon(given));
    }
    let mut out = String::new();
    let mut k: usize = 0;
    while k < parts.len()
        invariant
            k <= parts.len(),
            out@ == joined(rows(parts@), k as nat),
        decreases parts.len() - k,
    {
        if k > 0 {
            out.push(' ');
        }
        push_chars(&mut out, &parts[k], 0, parts[k].len());
        proof {
            assert(parts@[k as int]@.subrange(0, parts@[k as int]@.len() as int) =~= parts@[k as int]@);
            assert(out@ =~= joined(rows(parts@), (k + 1) as nat));
        }
        k += 1;
    }
    out
}

/// The state of a formatter between two lines.
struct Formatter<'a> {
    config: &'a Config,
    output: String,
    indent_level: usize,
    in_comment: bool,
    in_asm: bool,
}

impl<'a> View for Formatter<'a> {
    type V = FormatState;

    closed spec fn view(&self) -> FormatState {
        FormatState {
            out: self.output@,
            indent: self.indent_level as nat,
            in_comment: self.in_comment,
            in_asm: self.in_asm,
        }
    }
}

impl<'a> Formatter<'a> {
    /// A formatter that has written nothing.
    fn new(config: &'a Config) -> (formatter: Self)
        ensures
            formatter@ == (FormatState {
                out: Seq::empty(),
                indent: 0,
                in_comment: false,
                in_asm: false,
            }),
            formatter.config == config,
    {
        Formatter { config, output: String::new(), indent_level: 0, in_comment: false, in_asm: false }
    }

    /// Writes a line at the current indentation.
    fn write_indented(&mut self, content: &Vec<char>)
        ensures
            final(self)@ == write_indented(
                old(self)@,
                old(self).config.indent_spaces as nat,
                content@,
            ),
            final(self).config == old(self).config,
    {
        let ghost before = self.output@;
        let ghost width = self.indent_level as nat * self.config.indent_spaces as nat;
        assert(self.indent_level as u128 * self.config.indent_spaces as u128 <= u128::MAX)
            by (nonlinear_arith)
            requires
                self.indent_level <= u64::MAX,
                self.config.indent_spaces <= u64::MAX,
        ;
        let count: u128 = self.indent_level as u128 * self.config.indent_spaces as u128;
        let mut i: u128 = 0;
        while i < count
            invariant
                i <= count == width,
                self.output@ == before + spaces(i as nat),
                self.indent_level == old(self).indent_level,
                self.in_comment == old(self).in_comment,
                self.in_asm == old(self).in_asm,
                self.config == old(self).config,
            decreases count - i,
        {
            self.output.push(' ');
            assert(self.output@ =~= before + spaces((i + 1) as nat));
            i += 1;
        }
        push_chars(&mut self.output, content, 0, content.len());
        self.output.push('\n');
        assert(content@.subrange(0, content@.len() as int) =~= content@);
        assert(self.output@ =~= before + spaces(width) + content@ + seq!['\n']);
    }

    /// Formats a line of code.
    fn format_code_line(line: &Vec<char>) -> (r: Result<Vec<char>, FormatError>)
        ensures
            match r {
                Ok(out) => format_code_line(line@) == Some(out@),
                Err(_) => format_code_line(line@) is None,
            },
    {
        let (a, b) = trim_range(line);
        if range_starts_with(line, a, b, "//") {
            let mut same: Vec<char> = Vec::new();
            let mut i: usize = 0;
            while i < line.len()
                invariant
                    i <= line.len(),
                    same@ == line@.subrange(0, i as int),
                decreases line.len() - i,
            {
                same.push(line[i]);
                assert(same@ =~= line@.subrange(0, i + 1));
                i += 1;
            }
            assert(same@ =~= line@);
            return Ok(same);
        }
        let mut trimmed = String::new();
        push_chars(&mut trimmed, line, a, b);
        assert(trimmed@ =~= trim(line@));
        match replace_all(r"([+\-*/=<>!]=?|&&|\|\|)", trimmed.as_str(), " $1 ") {
            Ok(spaced) => Ok(chars_of(tidy_code_line(spaced.as_str()).as_str())),
            Err(_) => Err(FormatError::Pattern),
        }
    }

    /// Formats one line of the source.
    fn format_line(&mut self, line: &Vec<char>) -> (r: Result<(), FormatError>)
        requires
            old(self)@.indent < usize::MAX,
        ensures
            match r {
                Ok(_) => format_line(old(self)@, old(self).config.indent_spaces as nat, line@)
                    == Some(final(self)@),
                Err(_) => format_line(old(self)@, old(self).config.indent_spaces as nat, line@)
                    is None,
            },
            final(self).config == old(self).config,
            final(self)@.indent <= old(self)@.indent + 1,
    {
        let (a, b) = trim_range(line);
        if a == b {
            self.output.push('\n');
            return Ok(());
        }
        if range_starts_with(line, a, b, "/*") {
            self.in_comment = true;
        }
        if self.in_comment {
            self.write_indented(line);
            if range_ends_with(line, a, b, "*/") {
                self.in_comment = false;
            }
            return Ok(());
        }
        if range_starts_with(line, a, b, "asm") {
            self.in_asm = true;
        }
        if self.in_asm {
            self.write_indented(line);
            if has_char(line, ';') && !range_starts_with(line, a, line.len(), "//") {
                self.in_asm = false;
            }
            return Ok(());
        }
        assert(trim(line@)[0] == line@[a as int]);
        assert(trim(line@).last() == line@[b - 1]);
        if line[a] == '}' && self.indent_level > 0 {
            self.indent_level -= 1;
        }
        let formatted = Self::format_code_line(line)?;
        self.write_indented(&formatted);
        if line[b - 1] == '{' {
            self.indent_level += 1;
        }
        Ok(())
    }
}

impl<'a> Formatter<'a> {
    /// Formats a whole source with a formatter that has written nothing.
    fn format(&mut self, source: &str) -> (r: Result<String, FormatError>)
        requires
            old(self)@ == (FormatState {
                out: Seq::empty(),
                indent: 0,
                in_comment: false,
                in_asm: false,
            }),
        ensures
            match r {
                Ok(out) => format(source@, old(self).config.indent_spaces as nat) == Some(out@),
                Err(_) => format(source@, old(self).config.indent_spaces as nat) is None,
            },
    {
        let chars = to_unix(&chars_of(source));
        let lines = split_lines(&chars);
        let ghost texts = lines_of(unix_newlines(source@, 0));
        let ghost width = self.config.indent_spaces as nat;
        assert(rows(lines@) =~= texts);
        let ghost start = self@;
        let mut k: usize = 0;
        while k < lines.len()
            invariant
                k <= lines.len(),
                rows(lines@) == texts,
                texts == lines_of(unix_newlines(source@, 0)),
                start == (FormatState {
                    out: Seq::empty(),
                    indent: 0,
                    in_comment: false,
                    in_asm: false,
                }),
                self.config == old(self).config,
                width == old(self).config.indent_spaces as nat,
                self@.indent <= k,
                format_lines(start, width, texts, k as nat) == Some(self@),
            decreases lines.len() - k,
        {
            match self.format_line(&lines[k]) {
                Ok(_) => {},
                Err(e) => {
                    proof {
                        assert(texts[k as int] == lines@[k as int]@);
                        assert(format_lines(start, width, texts, (k + 1) as nat) is None);
                        lemma_format_fails(start, width, texts, (k + 1) as nat, texts.len());
                    }
                    return Err(e);
                },
            }
            k += 1;
        }
        if !ends_in_newline(&self.output) {
            self.output.push('\n');
        }
        Ok(self.output.clone())
    }
}

/// Formats a source text.
///
/// Every line is indented by the depth of the braces around it. In a line
/// of code, operators are set apart by single spaces, runs of whitespace
/// shrink to one space, and a closing semicolon stands by itself. Empty
/// lines, line comments, block comments and inline assembly keep their text.
/// Fails where the pattern that finds the operators is not accepted.
pub fn format_source(source: &str, config: &Config) -> (r: Result<String, FormatError>)
    ensures
        match r {
            Ok(out) => format(source@, config.indent_spaces as nat) == Some(out@),
            Err(_) => format(source@, config.indent_spaces as nat) is None,
        },
{
    let mut formatter = Formatter::new(config);
    formatter.format(source)
}

/// Tells whether a text ends with a line feed.
fn ends_in_newline(text: &String) -> (r: bool)
    ensures
        r == (text@.len() > 0 && text@.last() == '\n'),
{
    let chars = chars_of(text.as_str());
    chars.len() > 0 && chars[chars.len() - 1] == '\n'
}

/// Once a line cannot be formatted, no longer run of lines can.
proof fn lemma_format_fails(
    st: FormatState,
    width: nat,
    lines: Seq<Seq<char>>,
    k: nat,
    n: nat,
)
    requires
        k <= n <= lines.len(),
        format_lines(st, width, lines, k) is None,
    ensures
        format_lines(st, width, lines, n) is None,
    decreases n,
{
    if k < n {
        lemma_format_fails(st, width, lines, k, (n - 1) as nat);
    }
}

} // verus!
