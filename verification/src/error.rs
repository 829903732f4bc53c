//! Compile errors and how they are shown: the message, the place, the source
//! line and a caret under the offending column.

use vstd::prelude::*;
use vstd::string::*;
use crate::colors::{
    error_location_style, error_pointer_style, error_source_style, error_style, styled, Color,
    Style,
};
use crate::text::{decimal, push_decimal};

verus! {

/// A place in a source file. Lines and columns count from 1.
#[derive(Debug)]
pub struct SourceLocation {
    pub line: usize,
    pub column: usize,
    pub file: String,
}

/// A place in a source file, as mathematics.
pub struct SpecLocation {
    pub line: nat,
    pub column: nat,
    pub file: Seq<char>,
}

impl View for SourceLocation {
    type V = SpecLocation;

    open spec fn view(&self) -> SpecLocation {
        SpecLocation { line: self.line as nat, column: self.column as nat, file: self.file@ }
    }
}

/// What went wrong.
#[derive(Debug)]
pub enum ErrorKind {
    UnexpectedToken { expected: String, found: String },
    UndefinedVariable(String),
    SyntaxError(String),
    InvalidOperator(String),
    IOError(String),
}

/// What went wrong, as mathematics.
pub enum SpecErrorKind {
    UnexpectedToken { expected: Seq<char>, found: Seq<char> },
    UndefinedVariable(Seq<char>),
    SyntaxError(Seq<char>),
    InvalidOperator(Seq<char>),
    IOError(Seq<char>),
}

impl View for ErrorKind {
    type V = SpecErrorKind;

    open spec fn view(&self) -> SpecErrorKind {
        match self {
            ErrorKind::UnexpectedToken { expected, found } => SpecErrorKind::UnexpectedToken {
                expected: expected@,
                found: found@,
            },
            ErrorKind::UndefinedVariable(name) => SpecErrorKind::UndefinedVariable(name@),
            ErrorKind::SyntaxError(message) => SpecErrorKind::SyntaxError(message@),
            ErrorKind::InvalidOperator(op) => SpecErrorKind::InvalidOperator(op@),
            ErrorKind::IOError(message) => SpecErrorKind::IOError(message@),
        }
    }
}

/// A compile error: its kind, its place, and the source line of that place.
#[derive(Debug)]
pub struct CompilerError {
    pub kind: ErrorKind,
    pub location: SourceLocation,
    pub source_line: String,
}

/// A compile error, as mathematics.
pub struct SpecError {
    pub kind: SpecErrorKind,
    pub location: SpecLocation,
    pub source_line: Seq<char>,
}

impl View for CompilerError {
    type V = SpecError;

    open spec fn view(&self) -> SpecError {
        SpecError { kind: self.kind@, location: self.location@, source_line: self.source_line@ }
    }
}

/// The result of a compiler stage.
pub type Result<T> = std::result::Result<T, CompilerError>;

/// The message of an error of the given kind.
pub open spec fn message(kind: SpecErrorKind) -> Seq<char> {
    match kind {
        SpecErrorKind::UnexpectedToken { expected, found } => "expected "@ + expected + ", found "@
            + found,
        SpecErrorKind::UndefinedVariable(name) => "undefined variable `"@ + name + "`"@,
        SpecErrorKind::SyntaxError(text) => text,
        SpecErrorKind::InvalidOperator(op) => "invalid operator `"@ + op + "`"@,
        SpecErrorKind::IOError(text) => "IO error: "@ + text,
    }
}

/// A line number in a field of width four, right-aligned.
pub open spec fn line_field(line: nat) -> Seq<char> {
    (if line < 10 {
        "   "@
    } else if line < 100 {
        "  "@
    } else if line < 1000 {
        " "@
    } else {
        ""@
    }) + decimal(line)
}

/// `n` spaces.
pub open spec fn spaces(n: nat) -> Seq<char> {
    Seq::new(n, |i: int| ' ')
}

/// A text in a style when `color` is set, and as it is otherwise.
pub open spec fn shown(
    color: bool,
    bold: bool,
    fg: Option<Color>,
    text: Seq<char>,
) -> Seq<char> {
    if color {
        styled(bold, fg, None, text)
    } else {
        text
    }
}

/// The four lines in which an error is shown: the message in bold red, the
/// place in bold cyan, the source line in the default style, and in bold red
/// a caret under the column.
pub open spec fn render(e: SpecError, color: bool) -> Seq<char> {
    let head = "error: "@ + message(e.kind) + "\n"@;
    let place = "  --> "@ + e.location.file + ":"@ + decimal(e.location.line) + ":"@ + decimal(
        e.location.column,
    ) + "\n"@;
    let source = line_field(e.location.line) + " | "@ + e.source_line + "\n"@;
    let pointer = "     | "@ + spaces((e.location.column - 1) as nat) + "^"@;
    shown(color, true, Some(Color::Red), head) + shown(color, true, Some(Color::Cyan), place)
        + shown(color, false, None, source) + shown(
        color,
        true,
        Some(Color::Red),
        pointer,
    ) + "\n"@
}

/// The text in the style, or unchanged when styling is off.
fn show(color: bool, style: Style, text: &str) -> (out: String)
    requires
        style.background() is None,
    ensures
        out@ == shown(color, style.is_bold(), style.foreground(), text@),
{
    if color {
        style.apply(text)
    } else {
        text.to_owned()
    }
}

impl CompilerError {
    /// An error of the given kind at the given place.
    pub fn new(kind: ErrorKind, location: SourceLocation, source_line: String) -> (e: Self)
        ensures
            e.kind == kind,
            e.location == location,
            e.source_line == source_line,
    {
        CompilerError { kind, location, source_line }
    }

    /// The error as it is shown on a terminal, with colours.
    pub fn format_error(&self) -> (out: String)
        requires
            self.location.column >= 1,
        ensures
            out@ == render(self@, true),
    {
        self.render(true)
    }

    /// The error as it is shown where styling is switched off.
    pub fn format_plain(&self) -> (out: String)
        requires
            self.location.column >= 1,
        ensures
            out@ == render(self@, false),
    {
        self.render(false)
    }

    fn render(&self, color: bool) -> (out: String)
        requires
            self.location.column >= 1,
        ensures
            out@ == render(self@, color),
    {
        let mut head = String::from_str("error: ");
        head.append(self.get_error_message().as_str());
        head.append("\n");

        let mut place = String::from_str("  --> ");
        place.append(self.location.file.as_str());
        place.append(":");
        push_decimal(&mut place, self.location.line as u128);
        place.append(":");
        push_decimal(&mut place, self.location.column as u128);
        place.append("\n");

        let line = self.location.line;
        let mut source = String::from_str(
            if line < 10 {
                "   "
            } else if line < 100 {
                "  "
            } else if line < 1000 {
                " "
            } else {
                ""
            },
        );
        push_decimal(&mut source, line as u128);
        source.append(" | ");
        source.append(self.source_line.as_str());
        source.append("\n");

        let mut pointer = String::from_str("     | ");
        let ghost before = pointer@;
        let mut i: usize = 0;
        while i < self.location.column - 1
            invariant
                i <= self.location.column - 1,
                pointer@ == before + spaces(i as nat),
            decreases self.location.column - 1 - i,
        {
            pointer.push(' ');
            assert(pointer@ =~= before + spaces((i + 1) as nat));
            i += 1;
        }
        pointer.append("^");

        let mut out = show(color, error_style(), head.as_str());
        out.append(show(color, error_location_style(), place.as_str()).as_str());
        out.append(show(color, error_source_style(), source.as_str()).as_str());
        out.append(show(color, error_pointer_style(), pointer.as_str()).as_str());
        out.append("\n");
        out
    }

    /// The message of the error.
    fn get_error_message(&self) -> (out: String)
        ensures
            out@ == message(self@.kind),
    {
        match &self.kind {
            ErrorKind::UnexpectedToken { expected, found } => {
                let mut out = String::from_str("expected ");
                out.append(expected.as_str());
                out.append(", found ");
                out.append(found.as_str());
                out
            },
            ErrorKind::UndefinedVariable(name) => {
                let mut out = String::from_str("undefined variable `");
                out.append(name.as_str());
                out.append("`");
                out
            },
            ErrorKind::SyntaxError(text) => text.clone(),
            ErrorKind::InvalidOperator(op) => {
                let mut out = String::from_str("invalid operator `");
                out.append(op.as_str());
                out.append("`");
                out
            },
            ErrorKind::IOError(text) => {
                let mut out = String::from_str("IO error: ");
                out.append(text.as_str());
                out
            },
        }
    }
}

} // verus!
