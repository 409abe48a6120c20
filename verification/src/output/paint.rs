//! Colours on the terminal.
use owo_colors::OwoColorize;
use vstd::prelude::*;

use crate::db::task_repo;
use crate::text;

verus! {

/// How a piece of text is painted.
#[derive(Clone, Copy, PartialEq, Eq, Structural, Debug)]
pub enum Ink {
    Plain,
    CyanDimmed,
    Green,
    Yellow,
    Red,
    Magenta,
    Dimmed,
    Bold,
    RedBold,
}

/// The codes that switch an ink on.
pub open spec fn ink_codes(ink: Ink) -> Seq<char> {
    match ink {
        Ink::Plain => Seq::empty(),
        Ink::CyanDimmed => "36;2"@,
        Ink::Green => "32"@,
        Ink::Yellow => "33"@,
        Ink::Red => "31"@,
        Ink::Magenta => "35"@,
        Ink::Dimmed => "2"@,
        Ink::Bold => "1"@,
        Ink::RedBold => "31;1"@,
    }
}

/// A text between the escape sequences that switch an ink on and off. A plain text is left as it
/// is.
pub open spec fn painted(s: Seq<char>, ink: Ink) -> Seq<char> {
    if ink is Plain {
        s
    } else {
        "\u{1b}["@ + ink_codes(ink) + "m"@ + s + "\u{1b}[0m"@
    }
}

/// `owo_colors::OwoColorize::style` displays a text in a style: an escape sequence with the codes
/// of the colour and then of the effects, the text, and the sequence that resets. An empty style
/// displays the text alone.
#[verifier::external_body]
pub(crate) fn paint(s: &str, ink: Ink) -> (out: String)
    ensures
        out@ == painted(s@, ink),
{
    let style = match ink {
        Ink::Plain => owo_colors::Style::new(),
        Ink::CyanDimmed => owo_colors::Style::new().cyan().dimmed(),
        Ink::Green => owo_colors::Style::new().green(),
        Ink::Yellow => owo_colors::Style::new().yellow(),
        Ink::Red => owo_colors::Style::new().red(),
        Ink::Magenta => owo_colors::Style::new().magenta(),
        Ink::Dimmed => owo_colors::Style::new().dimmed(),
        Ink::Bold => owo_colors::Style::new().bold(),
        Ink::RedBold => owo_colors::Style::new().red().bold(),
    };
    format!("{}", s.style(style))
}

/// The colour scheme.
#[derive(Clone, Copy, PartialEq, Eq, Structural, Debug)]
pub struct Colors {
    pub task_id: Ink,
    pub completed: Ink,
    pub pending: Ink,
    pub blocked: Ink,
    pub cancelled: Ink,
    pub archived: Ink,
    pub priority_high: Ink,
    pub priority_med: Ink,
    pub milestone: Ink,
    pub tree_line: Ink,
    pub error: Ink,
}

/// The colour scheme, with colours or without.
pub open spec fn scheme(use_color: bool) -> Colors {
    if use_color {
        Colors {
            task_id: Ink::CyanDimmed,
            completed: Ink::Green,
            pending: Ink::Yellow,
            blocked: Ink::Red,
            cancelled: Ink::Magenta,
            archived: Ink::Dimmed,
            priority_high: Ink::Red,
            priority_med: Ink::Yellow,
            milestone: Ink::Bold,
            tree_line: Ink::Dimmed,
            error: Ink::RedBold,
        }
    } else {
        Colors {
            task_id: Ink::Plain,
            completed: Ink::Plain,
            pending: Ink::Plain,
            blocked: Ink::Plain,
            cancelled: Ink::Plain,
            archived: Ink::Plain,
            priority_high: Ink::Plain,
            priority_med: Ink::Plain,
            milestone: Ink::Plain,
            tree_line: Ink::Plain,
            error: Ink::Plain,
        }
    }
}

impl Colors {
    /// The colour scheme, with colours or without.
    pub fn new(use_color: bool) -> (out: Colors)
        ensures
            out == scheme(use_color),
    {
        if use_color {
            Colors {
                task_id: Ink::CyanDimmed,
                completed: Ink::Green,
                pending: Ink::Yellow,
                blocked: Ink::Red,
                cancelled: Ink::Magenta,
                archived: Ink::Dimmed,
                priority_high: Ink::Red,
                priority_med: Ink::Yellow,
                milestone: Ink::Bold,
                tree_line: Ink::Dimmed,
                error: Ink::RedBold,
            }
        } else {
            Colors {
                task_id: Ink::Plain,
                completed: Ink::Plain,
                pending: Ink::Plain,
                blocked: Ink::Plain,
                cancelled: Ink::Plain,
                archived: Ink::Plain,
                priority_high: Ink::Plain,
                priority_med: Ink::Plain,
                milestone: Ink::Plain,
                tree_line: Ink::Plain,
                error: Ink::Plain,
            }
        }
    }
}

/// What the environment says of colours.
#[derive(Debug)]
pub struct Terminal {
    /// Whether `NO_COLOR` is set.
    pub no_color: bool,
    /// What `TERM` is set to.
    pub term: Option<String>,
    /// Whether the standard output is a terminal.
    pub stdout_is_tty: bool,
    /// Whether the standard error is a terminal.
    pub stderr_is_tty: bool,
}

/// Whether colours are used: only on a terminal that can show them, and only where neither the
/// command line nor the environment forbids them.
pub open spec fn color_allowed(
    no_color_flag: bool,
    no_color: bool,
    term: Option<Seq<char>>,
    is_tty: bool,
) -> bool {
    !no_color_flag && !no_color && term != Some("dumb"@) && is_tty
}

/// Whether colours are used.
pub fn should_use_color_for(
    no_color_flag: bool,
    no_color: bool,
    term: Option<&str>,
    is_tty: bool,
) -> (out: bool)
    ensures
        out == color_allowed(no_color_flag, no_color, task_repo::opt_str(term), is_tty),
{
    if no_color_flag || no_color {
        return false;
    }
    if let Some(t) = term {
        if text::same(t, "dumb") {
            return false;
        }
    }
    is_tty
}

/// Writes the human-readable output.
#[derive(Debug)]
pub struct Printer {
    pub colors: Colors,
}

impl Terminal {
    fn term(&self) -> (out: Option<&str>)
        ensures
            task_repo::opt_str(out) == text::opt_text(self.term),
    {
        match &self.term {
            Some(t) => Some(t.as_str()),
            None => None,
        }
    }
}

impl Printer {
    /// A printer for the standard output.
    pub fn new(no_color_flag: bool, t: &Terminal) -> (out: Printer)
        ensures
            out.colors == scheme(
                color_allowed(
                    no_color_flag,
                    t.no_color,
                    text::opt_text(t.term),
                    t.stdout_is_tty,
                ),
            ),
    {
        let use_color: bool = should_use_color_for(
            no_color_flag,
            t.no_color,
            t.term(),
            t.stdout_is_tty,
        );
        Printer { colors: Colors::new(use_color) }
    }

    /// A printer for the standard error.
    pub fn new_for_stderr(no_color_flag: bool, t: &Terminal) -> (out: Printer)
        ensures
            out.colors == scheme(
                color_allowed(
                    no_color_flag,
                    t.no_color,
                    text::opt_text(t.term),
                    t.stderr_is_tty,
                ),
            ),
    {
        let use_color: bool = should_use_color_for(
            no_color_flag,
            t.no_color,
            t.term(),
            t.stderr_is_tty,
        );
        Printer { colors: Colors::new(use_color) }
    }

    /// The line for an error.
    pub fn print_error(&self, message: &str) -> (out: String)
        ensures
            out@ == painted(message@, self.colors.error),
    {
        paint(message, self.colors.error)
    }
}

} // verus!
