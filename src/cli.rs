//! What the command line asks for, and the choice of a viewer for the whole log.
use vstd::prelude::*;

use crate::entry::Action;

verus! {

/// The filter named on the command line; several names share one meaning.
#[derive(Clone, Copy, PartialEq, Eq, Debug, Structural)]
pub enum Filter {
    A,
    All,
    I,
    Installed,
    E,
    Explicitly,
    U,
    Upgraded,
    R,
    Removed,
    Uninstalled,
}

/// What is to be shown.
#[derive(Clone, Copy, PartialEq, Eq, Debug, Structural)]
pub enum Mode {
    /// The whole log, in a viewer.
    Everything,
    /// The entries of one action.
    Only(Action),
    /// The install entries of explicitly installed packages.
    Explicit,
}

impl Filter {
    pub open spec fn spec_mode(self) -> Mode {
        match self {
            Filter::A | Filter::All => Mode::Everything,
            Filter::I | Filter::Installed => Mode::Only(Action::Installed),
            Filter::E | Filter::Explicitly => Mode::Explicit,
            Filter::U | Filter::Upgraded => Mode::Only(Action::Upgraded),
            Filter::R | Filter::Removed | Filter::Uninstalled => Mode::Only(Action::Removed),
        }
    }

    /// What this filter shows.
    pub fn mode(self) -> (r: Mode)
        ensures
            r == self.spec_mode(),
    {
        match self {
            Filter::A | Filter::All => Mode::Everything,
            Filter::I | Filter::Installed => Mode::Only(Action::Installed),
            Filter::E | Filter::Explicitly => Mode::Explicit,
            Filter::U | Filter::Upgraded => Mode::Only(Action::Upgraded),
            Filter::R | Filter::Removed | Filter::Uninstalled => Mode::Only(Action::Removed),
        }
    }
}

/// How many viewer programs are tried for the whole log.
pub const VIEWER_COUNT: usize = 4;

/// The viewer programs, in the order in which they are tried.
pub open spec fn viewer_name(i: int) -> Seq<char> {
    if i == 0 {
        "nvim"@
    } else if i == 1 {
        "vim"@
    } else if i == 2 {
        "bat"@
    } else {
        "cat"@
    }
}

/// The program tried in place `i`.
pub fn viewer(i: usize) -> (r: &'static str)
    requires
        i < VIEWER_COUNT,
    ensures
        r@ == viewer_name(i as int),
{
    if i == 0 {
        "nvim"
    } else if i == 1 {
        "vim"
    } else if i == 2 {
        "bat"
    } else {
        "cat"
    }
}

/// What came of starting a viewer on the log.
#[derive(Clone, Copy, PartialEq, Eq, Debug, Structural)]
pub enum Launch {
    /// The program could not be started.
    NotStarted,
    /// It ran and exited successfully.
    Succeeded,
    /// It ran and exited with this failing status code.
    Failed(i32),
    /// It ran and was ended by a signal.
    Killed,
}

/// What to do next while showing the whole log.
#[derive(Clone, Copy, PartialEq, Eq, Debug, Structural)]
pub enum ViewerStep {
    /// Start the viewer in this place.
    Start(usize),
    /// The log was shown.
    Done,
    /// The viewer in this place exited with this status code.
    ExitedWith(usize, i32),
    /// The viewer in this place was ended by a signal.
    EndedBySignal(usize),
    /// No viewer could be started.
    NoneWorked,
}

/// The first step: start the first viewer.
pub fn first_viewer_step() -> (r: ViewerStep)
    ensures
        r == ViewerStep::Start(0),
{
    ViewerStep::Start(0)
}

/// The step after the viewer in place `tried` was launched: the next viewer when it
/// could not be started (none left: no viewer worked); otherwise its result ends the
/// attempt.
pub fn next_viewer_step(tried: usize, launch: Launch) -> (r: ViewerStep)
    requires
        tried < VIEWER_COUNT,
    ensures
        r == match launch {
            Launch::NotStarted => if tried + 1 < VIEWER_COUNT {
                ViewerStep::Start((tried + 1) as usize)
            } else {
                ViewerStep::NoneWorked
            },
            Launch::Succeeded => ViewerStep::Done,
            Launch::Failed(code) => ViewerStep::ExitedWith(tried, code),
            Launch::Killed => ViewerStep::EndedBySignal(tried),
        },
{
    match launch {
        Launch::NotStarted => {
            if tried + 1 < VIEWER_COUNT {
                ViewerStep::Start(tried + 1)
            } else {
                ViewerStep::NoneWorked
            }
        },
        Launch::Succeeded => ViewerStep::Done,
        Launch::Failed(code) => ViewerStep::ExitedWith(tried, code),
        Launch::Killed => ViewerStep::EndedBySignal(tried),
    }
}

} // verus!
