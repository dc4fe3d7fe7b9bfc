//! Log entries and the parsing of a single log line.
use vstd::prelude::*;

use crate::text::{find, find_first, lemma_find_from_bounds, occurs_at, same_chars, slice_chars, string_of};

verus! {

/// What a log entry records happening to a package.
#[derive(Clone, Copy, PartialEq, Eq, Debug, Structural)]
pub enum Action {
    Installed,
    Upgraded,
    Removed,
}

impl Action {
    /// The word that names this action in the log.
    pub open spec fn spec_keyword(self) -> Seq<char> {
        match self {
            Action::Installed => "installed"@,
            Action::Upgraded => "upgraded"@,
            Action::Removed => "removed"@,
        }
    }

    /// The word that names this action in the log.
    pub fn keyword(&self) -> (r: &'static str)
        ensures
            r@ == self.spec_keyword(),
    {
        match self {
            Action::Installed => "installed",
            Action::Upgraded => "upgraded",
            Action::Removed => "removed",
        }
    }
}

/// One entry of the log: when, what, to which package, at which version.
#[derive(Clone, Debug)]
pub struct LogEntry {
    pub time: String,
    pub action: Action,
    pub package: String,
    pub version: String,
}

/// The mathematical value of a [`LogEntry`].
pub struct EntryView {
    pub time: Seq<char>,
    pub action: Action,
    pub package: Seq<char>,
    pub version: Seq<char>,
}

impl View for LogEntry {
    type V = EntryView;

    open spec fn view(&self) -> EntryView {
        EntryView {
            time: self.time@,
            action: self.action,
            package: self.package@,
            version: self.version@,
        }
    }
}

/// What one line of the log says, as far as a filter is concerned.
pub enum LineView {
    /// The line is not an entry of the kind looked for.
    Unrelated,
    /// The line announces an entry of the kind looked for, but lacks its fields.
    Malformed,
    /// The line is an entry of the kind looked for.
    Record(EntryView),
}

/// The outcome of reading one line.
pub enum ParsedLine {
    Unrelated,
    Malformed,
    Record(LogEntry),
}

impl View for ParsedLine {
    type V = LineView;

    open spec fn view(&self) -> LineView {
        match self {
            ParsedLine::Unrelated => LineView::Unrelated,
            ParsedLine::Malformed => LineView::Malformed,
            ParsedLine::Record(e) => LineView::Record(e@),
        }
    }
}

/// The tag that separates the time stamp from the rest of a package-manager line.
pub open spec fn alpm_marker() -> Seq<char> {
    " [ALPM] "@
}

/// The tag of a package-manager line together with the install keyword.
pub open spec fn installed_marker() -> Seq<char> {
    " [ALPM] installed "@
}

/// The separator between the fields after the tag.
pub open spec fn space() -> Seq<char> {
    seq![' ']
}

/// Reads `l` as an entry of `action`: time stamp, tag, keyword, package and version,
/// separated by single spaces; the version is the rest of the line.
pub open spec fn parse_action_line(l: Seq<char>, action: Action) -> LineView {
    match find_first(l, alpm_marker()) {
        None => LineView::Unrelated,
        Some(i) => {
            let time = l.subrange(0, i);
            let rem = l.subrange(i + alpm_marker().len(), l.len() as int);
            match find_first(rem, space()) {
                None => if rem == action.spec_keyword() {
                    LineView::Malformed
                } else {
                    LineView::Unrelated
                },
                Some(j) => if rem.subrange(0, j) != action.spec_keyword() {
                    LineView::Unrelated
                } else {
                    let rest = rem.subrange(j + 1, rem.len() as int);
                    match find_first(rest, space()) {
                        None => LineView::Malformed,
                        Some(k) => LineView::Record(
                            EntryView {
                                time,
                                action,
                                package: rest.subrange(0, k),
                                version: rest.subrange(k + 1, rest.len() as int),
                            },
                        ),
                    }
                },
            }
        },
    }
}

/// Reads `l` as an install entry: time stamp, then the tag with the install keyword,
/// then package and version separated by a space.
pub open spec fn parse_installed_line(l: Seq<char>) -> LineView {
    match find_first(l, installed_marker()) {
        None => LineView::Unrelated,
        Some(i) => {
            let rem = l.subrange(i + installed_marker().len(), l.len() as int);
            match find_first(rem, space()) {
                None => LineView::Malformed,
                Some(j) => LineView::Record(
                    EntryView {
                        time: l.subrange(0, i),
                        action: Action::Installed,
                        package: rem.subrange(0, j),
                        version: rem.subrange(j + 1, rem.len() as int),
                    },
                ),
            }
        },
    }
}

/// Reads one line as an entry of `action`.
pub fn read_action_line(
    line: &Vec<char>,
    action: Action,
    marker: &Vec<char>,
    keyword: &Vec<char>,
) -> (r: ParsedLine)
    requires
        marker@ == alpm_marker(),
        keyword@ == action.spec_keyword(),
    ensures
        r@ == parse_action_line(line@, action),
{
    let sp: Vec<char> = vec![' '];
    assert(sp@ =~= space());
    let i = match find(line, marker) {
        None => {
            return ParsedLine::Unrelated;
        },
        Some(i) => i,
    };
    let n = line.len();
    proof {
        lemma_find_from_bounds(line@, marker@, 0);
        assert(occurs_at(line@, marker@, i as int));
    }
    let rem = slice_chars(line, i + marker.len(), line.len());
    match find(&rem, &sp) {
        None => {
            if same_chars(&rem, keyword) {
                ParsedLine::Malformed
            } else {
                ParsedLine::Unrelated
            }
        },
        Some(j) => {
            proof {
                lemma_find_from_bounds(rem@, sp@, 0);
            }
            let first = slice_chars(&rem, 0, j);
            if !same_chars(&first, keyword) {
                ParsedLine::Unrelated
            } else {
                let rest = slice_chars(&rem, j + 1, rem.len());
                match find(&rest, &sp) {
                    None => ParsedLine::Malformed,
                    Some(k) => {
                        proof {
                            lemma_find_from_bounds(rest@, sp@, 0);
                        }
                        ParsedLine::Record(
                            LogEntry {
                                time: string_of(line, 0, i),
                                action,
                                package: string_of(&rest, 0, k),
                                version: string_of(&rest, k + 1, rest.len()),
                            },
                        )
                    },
                }
            }
        },
    }
}

/// Reads one line as an install entry.
pub fn read_installed_line(line: &Vec<char>, marker: &Vec<char>) -> (r: ParsedLine)
    requires
        marker@ == installed_marker(),
    ensures
        r@ == parse_installed_line(line@),
{
    let sp: Vec<char> = vec![' '];
    assert(sp@ =~= space());
    let i = match find(line, marker) {
        None => {
            return ParsedLine::Unrelated;
        },
        Some(i) => i,
    };
    let n = line.len();
    proof {
        lemma_find_from_bounds(line@, marker@, 0);
        assert(occurs_at(line@, marker@, i as int));
    }
    let rem = slice_chars(line, i + marker.len(), line.len());
    match find(&rem, &sp) {
        None => ParsedLine::Malformed,
        Some(j) => {
            proof {
                lemma_find_from_bounds(rem@, sp@, 0);
            }
            ParsedLine::Record(
                LogEntry {
                    time: string_of(line, 0, i),
                    action: Action::Installed,
                    package: string_of(&rem, 0, j),
                    version: string_of(&rem, j + 1, rem.len()),
                },
            )
        },
    }
}

} // verus!
