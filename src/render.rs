//! Turning an entry into the line that is shown, with the package name highlighted.
use vstd::prelude::*;

use crate::entry::{EntryView, LogEntry};

verus! {

/// The escape sequence that turns on a bright-green foreground.
pub open spec fn highlight_on() -> Seq<char> {
    seq!['\x1b', '[', '9', '2', 'm']
}

/// The escape sequence that resets all styling.
pub open spec fn highlight_off() -> Seq<char> {
    seq!['\x1b', '[', '0', 'm']
}

/// Relies on `anstyle::Style::render`: a style whose only attribute is the bright-green
/// foreground (built with `Style::new` and `Style::fg_color`) renders as `ESC [ 9 2 m`.
#[verifier::external_body]
fn render_highlight() -> (r: String)
    ensures
        r@ == highlight_on(),
{
    anstyle::Style::new().fg_color(Some(anstyle::Color::Ansi(anstyle::AnsiColor::BrightGreen))).render().to_string()
}

/// Relies on `anstyle::Style::render_reset`: for any style other than the plain one,
/// here the bright-green foreground, it renders the reset sequence `ESC [ 0 m`.
#[verifier::external_body]
fn render_highlight_reset() -> (r: String)
    ensures
        r@ == highlight_off(),
{
    anstyle::Style::new().fg_color(Some(anstyle::Color::Ansi(anstyle::AnsiColor::BrightGreen))).render_reset().to_string()
}

/// The shown line of an entry: time, keyword, the package between `start` and `end`,
/// and the version, separated by single spaces.
pub open spec fn entry_line(e: EntryView, start: Seq<char>, end: Seq<char>) -> Seq<char> {
    e.time + " "@ + e.action.spec_keyword() + " "@ + start + e.package + end + " "@ + e.version
}

/// Builds the shown line of `e` with the package name between `start` and `end`.
pub fn format_entry(e: &LogEntry, start: &str, end: &str) -> (r: String)
    ensures
        r@ == entry_line(e@, start@, end@),
{
    let mut r = e.time.clone();
    r.append(" ");
    r.append(e.action.keyword());
    r.append(" ");
    r.append(start);
    r.append(e.package.as_str());
    r.append(end);
    r.append(" ");
    r.append(e.version.as_str());
    r
}

/// The shown line of `e`, with the package name in bright green.
pub fn highlighted_entry(e: &LogEntry) -> (r: String)
    ensures
        r@ == entry_line(e@, highlight_on(), highlight_off()),
{
    let start = render_highlight();
    let end = render_highlight_reset();
    format_entry(e, start.as_str(), end.as_str())
}

} // verus!
