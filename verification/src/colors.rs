//! Terminal styling with SGR escape sequences.

use vstd::prelude::*;
use vstd::string::*;

verus! {

/// The sixteen terminal colours.
#[derive(Clone, Copy, Debug, PartialEq, Eq, Structural)]
pub enum Color {
    Black,
    Red,
    Green,
    Yellow,
    Blue,
    Magenta,
    Cyan,
    White,
    BrightBlack,
    BrightRed,
    BrightGreen,
    BrightYellow,
    BrightBlue,
    BrightMagenta,
    BrightCyan,
    BrightWhite,
}

/// The SGR code that selects a foreground colour.
pub open spec fn foreground_code(color: Color) -> Seq<char> {
    match color {
        Color::Black => "30"@,
        Color::Red => "31"@,
        Color::Green => "32"@,
        Color::Yellow => "33"@,
        Color::Blue => "34"@,
        Color::Magenta => "35"@,
        Color::Cyan => "36"@,
        Color::White => "37"@,
        Color::BrightBlack => "90"@,
        Color::BrightRed => "91"@,
        Color::BrightGreen => "92"@,
        Color::BrightYellow => "93"@,
        Color::BrightBlue => "94"@,
        Color::BrightMagenta => "95"@,
        Color::BrightCyan => "96"@,
        Color::BrightWhite => "97"@,
    }
}

/// The SGR code that selects a background colour.
pub open spec fn background_code(color: Color) -> Seq<char> {
    match color {
        Color::Black => "40"@,
        Color::Red => "41"@,
        Color::Green => "42"@,
        Color::Yellow => "43"@,
        Color::Blue => "44"@,
        Color::Magenta => "45"@,
        Color::Cyan => "46"@,
        Color::White => "47"@,
        Color::BrightBlack => "100"@,
        Color::BrightRed => "101"@,
        Color::BrightGreen => "102"@,
        Color::BrightYellow => "103"@,
        Color::BrightBlue => "104"@,
        Color::BrightMagenta => "105"@,
        Color::BrightCyan => "106"@,
        Color::BrightWhite => "107"@,
    }
}

/// The codes of a style, joined by semicolons: bold first, then the
/// foreground, then the background.
pub open spec fn codes(bold: bool, fg: Option<Color>, bg: Option<Color>) -> Seq<char> {
    let a = if bold {
        "1"@
    } else {
        ""@
    };
    let b = match fg {
        Some(color) => (if bold {
            a + ";"@
        } else {
            a
        }) + foreground_code(color),
        None => a,
    };
    match bg {
        Some(color) => (if bold || fg is Some {
            b + ";"@
        } else {
            b
        }) + background_code(color),
        None => b,
    }
}

/// A text in a style: wrapped between the escape sequence that sets the
/// style's codes and the one that resets them, or unchanged when the style
/// sets nothing.
pub open spec fn styled(
    bold: bool,
    fg: Option<Color>,
    bg: Option<Color>,
    text: Seq<char>,
) -> Seq<char> {
    if !bold && fg is None && bg is None {
        text
    } else {
        "\x1b["@ + codes(bold, fg, bg) + "m"@ + text + "\x1b[0m"@
    }
}

/// A text style: weight, foreground and background.
pub struct Style {
    bold: bool,
    fg_color: Option<Color>,
    bg_color: Option<Color>,
}

fn foreground_code_of(color: Color) -> (code: &'static str)
    ensures
        code@ == foreground_code(color),
{
    match color {
        Color::Black => "30",
        Color::Red => "31",
        Color::Green => "32",
        Color::Yellow => "33",
        Color::Blue => "34",
        Color::Magenta => "35",
        Color::Cyan => "36",
        Color::White => "37",
        Color::BrightBlack => "90",
        Color::BrightRed => "91",
        Color::BrightGreen => "92",
        Color::BrightYellow => "93",
        Color::BrightBlue => "94",
        Color::BrightMagenta => "95",
        Color::BrightCyan => "96",
        Color::BrightWhite => "97",
    }
}

fn background_code_of(color: Color) -> (code: &'static str)
    ensures
        code@ == background_code(color),
{
    match color {
        Color::Black => "40",
        Color::Red => "41",
        Color::Green => "42",
        Color::Yellow => "43",
        Color::Blue => "44",
        Color::Magenta => "45",
        Color::Cyan => "46",
        Color::White => "47",
        Color::BrightBlack => "100",
        Color::BrightRed => "101",
        Color::BrightGreen => "102",
        Color::BrightYellow => "103",
        Color::BrightBlue => "104",
        Color::BrightMagenta => "105",
        Color::BrightCyan => "106",
        Color::BrightWhite => "107",
    }
}

impl Style {
    /// Whether the style is bold.
    pub closed spec fn is_bold(&self) -> bool {
        self.bold
    }

    /// The foreground colour, if the style sets one.
    pub closed spec fn foreground(&self) -> Option<Color> {
        self.fg_color
    }

    /// The background colour, if the style sets one.
    pub closed spec fn background(&self) -> Option<Color> {
        self.bg_color
    }

    /// The style that sets nothing.
    pub fn new() -> (style: Self)
        ensures
            !style.is_bold(),
            style.foreground() is None,
            style.background() is None,
    {
        Style { bold: false, fg_color: None, bg_color: None }
    }

    /// The same style, bold.
    pub fn bold(self) -> (style: Self)
        ensures
            style.is_bold(),
            style.foreground() == self.foreground(),
            style.background() == self.background(),
    {
        Style { bold: true, fg_color: self.fg_color, bg_color: self.bg_color }
    }

    /// The same style with the given foreground colour.
    pub fn fg(self, color: Color) -> (style: Self)
        ensures
            style.is_bold() == self.is_bold(),
            style.foreground() == Some(color),
            style.background() == self.background(),
    {
        Style { bold: self.bold, fg_color: Some(color), bg_color: self.bg_color }
    }

    /// The same style with the given background colour.
    pub fn bg(self, color: Color) -> (style: Self)
        ensures
            style.is_bold() == self.is_bold(),
            style.foreground() == self.foreground(),
            style.background() == Some(color),
    {
        Style { bold: self.bold, fg_color: self.fg_color, bg_color: Some(color) }
    }

    /// The text in this style.
    pub fn apply(&self, text: &str) -> (out: String)
        ensures
            out@ == styled(self.is_bold(), self.foreground(), self.background(), text@),
    {
        if !self.bold && self.fg_color.is_none() && self.bg_color.is_none() {
            return text.to_owned();
        }
        let mut list = String::new();
        proof {
            reveal_strlit("");
            assert(list@ =~= ""@);
        }
        if self.bold {
            list = String::from_str("1");
        }
        if let Some(color) = self.fg_color {
            if self.bold {
                list.append(";");
            }
            list.append(foreground_code_of(color));
        }
        if let Some(color) = self.bg_color {
            if self.bold || self.fg_color.is_some() {
                list.append(";");
            }
            list.append(background_code_of(color));
        }
        let mut out = String::from_str("\x1b[");
        out.append(list.as_str());
        out.append("m");
        out.append(text);
        out.append("\x1b[0m");
        out
    }
}

/// The style of the line that names the error: bold red.
pub fn error_style() -> (style: Style)
    ensures
        style.is_bold(),
        style.foreground() == Some(Color::Red),
        style.background() is None,
{
    Style::new().bold().fg(Color::Red)
}

/// The style of the line that names the place: bold cyan.
pub fn error_location_style() -> (style: Style)
    ensures
        style.is_bold(),
        style.foreground() == Some(Color::Cyan),
        style.background() is None,
{
    Style::new().bold().fg(Color::Cyan)
}

/// The style of the quoted source line: the default style, which leaves
/// the text as it is.
pub fn error_source_style() -> (style: Style)
    ensures
        !style.is_bold(),
        style.foreground() is None,
        style.background() is None,
{
    Style::new()
}

/// The style of the caret line: bold red.
pub fn error_pointer_style() -> (style: Style)
    ensures
        style.is_bold(),
        style.foreground() == Some(Color::Red),
        style.background() is None,
{
    Style::new().bold().fg(Color::Red)
}

} // verus!
