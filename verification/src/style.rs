//! Coloured text for the terminal.

use clap::builder::styling::{AnsiColor, Color, Effects, Style};
use vstd::prelude::*;
use vstd::string::StringExecFns;

verus! {

/// The colours in which the console writes.
#[derive(Clone, Copy, Debug, PartialEq, Eq, Structural)]
pub enum TextColor {
    Red,
    Green,
    Yellow,
}

/// A style of text: a colour, if any, and whether the text is bold.
#[derive(Clone, Copy, Debug, PartialEq, Eq, Structural)]
pub struct TextStyle {
    pub color: Option<TextColor>,
    pub bold: bool,
}

/// The escape code of a foreground colour.
pub open spec fn color_code(color: TextColor) -> Seq<char> {
    match color {
        TextColor::Red => "\x1b[31m"@,
        TextColor::Green => "\x1b[32m"@,
        TextColor::Yellow => "\x1b[33m"@,
    }
}

/// The escape code that switches the terminal to text of this colour and
/// weight: the code for bold, if the text is bold, and then the code of the
/// colour, if it has one.
pub open spec fn style_start(color: Option<TextColor>, bold: bool) -> Seq<char> {
    (if bold {
        "\x1b[1m"@
    } else {
        Seq::empty()
    }) + (match color {
        Some(color) => color_code(color),
        None => Seq::empty(),
    })
}

/// The escape code that ends text of this colour and weight: the reset code,
/// or nothing where there is nothing to reset.
pub open spec fn style_end(color: Option<TextColor>, bold: bool) -> Seq<char> {
    if color is None && !bold {
        Seq::empty()
    } else {
        "\x1b[0m"@
    }
}

/// Calls `render` of clap's `Style`, on the style with this foreground colour
/// and with the bold effect if `bold` is set, and returns what it displays:
/// the escape codes of the style's effects and then that of its foreground
/// colour.
#[verifier::external_body]
fn render(color: Option<TextColor>, bold: bool) -> (r: String)
    ensures
        r@ == style_start(color, bold),
{
    let color = match color {
        None => None,
        Some(TextColor::Red) => Some(Color::Ansi(AnsiColor::Red)),
        Some(TextColor::Green) => Some(Color::Ansi(AnsiColor::Green)),
        Some(TextColor::Yellow) => Some(Color::Ansi(AnsiColor::Yellow)),
    };
    let effects = if bold { Effects::BOLD } else { Effects::new() };
    format!("{}", Style::new().fg_color(color).effects(effects).render())
}

/// Calls `render_reset` of clap's `Style`, on the style with this foreground
/// colour and with the bold effect if `bold` is set, and returns what it
/// displays: the reset code, unless the style is the plain one, for which
/// it displays nothing.
#[verifier::external_body]
fn render_reset(color: Option<TextColor>, bold: bool) -> (r: String)
    ensures
        r@ == style_end(color, bold),
{
    let color = match color {
        None => None,
        Some(TextColor::Red) => Some(Color::Ansi(AnsiColor::Red)),
        Some(TextColor::Green) => Some(Color::Ansi(AnsiColor::Green)),
        Some(TextColor::Yellow) => Some(Color::Ansi(AnsiColor::Yellow)),
    };
    let effects = if bold { Effects::BOLD } else { Effects::new() };
    format!("{}", Style::new().fg_color(color).effects(effects).render_reset())
}

impl TextStyle {
    /// No colour and no effect.
    pub fn plain() -> (r: Self)
        ensures
            r == (TextStyle { color: None, bold: false }),
    {
        TextStyle { color: None, bold: false }
    }

    /// Red.
    pub fn red() -> (r: Self)
        ensures
            r == (TextStyle { color: Some(TextColor::Red), bold: false }),
    {
        TextStyle { color: Some(TextColor::Red), bold: false }
    }

    /// Green.
    pub fn green() -> (r: Self)
        ensures
            r == (TextStyle { color: Some(TextColor::Green), bold: false }),
    {
        TextStyle { color: Some(TextColor::Green), bold: false }
    }

    /// The style of errors: bold red.
    pub fn error() -> (r: Self)
        ensures
            r == (TextStyle { color: Some(TextColor::Red), bold: true }),
    {
        TextStyle { color: Some(TextColor::Red), bold: true }
    }

    /// The style of warnings: bold yellow.
    pub fn warning() -> (r: Self)
        ensures
            r == (TextStyle { color: Some(TextColor::Yellow), bold: true }),
    {
        TextStyle { color: Some(TextColor::Yellow), bold: true }
    }

    /// The style of arguments of the command line: yellow.
    pub fn argument() -> (r: Self)
        ensures
            r == (TextStyle { color: Some(TextColor::Yellow), bold: false }),
    {
        TextStyle { color: Some(TextColor::Yellow), bold: false }
    }
}

/// `text` in `style`.
pub open spec fn styled(style: TextStyle, text: Seq<char>) -> Seq<char> {
    style_start(style.color, style.bold) + text + style_end(style.color, style.bold)
}

/// `text` between the codes that switch `style` on and off.
pub fn format_colored(style: TextStyle, text: &str) -> (r: String)
    ensures
        r@ == styled(style, text@),
{
    let mut colored = render(style.color, style.bold);
    colored.append(text);
    colored.append(render_reset(style.color, style.bold).as_str());
    colored
}

/// `text` as an error.
pub fn format_error(text: &str) -> (r: String)
    ensures
        r@ == styled(TextStyle { color: Some(TextColor::Red), bold: true }, text@),
{
    format_colored(TextStyle::error(), text)
}

/// `text` as a warning.
pub fn format_warning(text: &str) -> (r: String)
    ensures
        r@ == styled(TextStyle { color: Some(TextColor::Yellow), bold: true }, text@),
{
    format_colored(TextStyle::warning(), text)
}

/// `text` as an argument of the command line.
pub fn format_argument(text: &str) -> (r: String)
    ensures
        r@ == styled(TextStyle { color: Some(TextColor::Yellow), bold: false }, text@),
{
    format_colored(TextStyle::argument(), text)
}

/// The line that reports an error: the word `error:` as an error, a space,
/// and the message.
pub fn error_line(message: &str) -> (r: String)
    ensures
        r@ == styled(TextStyle { color: Some(TextColor::Red), bold: true }, "error:"@) + " "@
            + message@,
{
    let mut line = format_error("error:");
    line.append(" ");
    line.append(message);
    line
}

} // verus!
