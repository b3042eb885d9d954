//! Severity levels, their order and their printed names.

use vstd::prelude::*;

verus! {

/// The severity of a log record, from the most severe (`Error`) to the most
/// verbose (`Trace`).
#[derive(Clone, Copy, Debug, PartialEq, Eq, Structural)]
pub enum Level {
    Error,
    Warn,
    Info,
    Debug,
    Trace,
}

impl Level {
    /// The ordinal of the level: 1 for `Error`, rising to 5 for `Trace`.
    /// A lower ordinal is a more severe level.
    pub open spec fn ordinal(self) -> int {
        match self {
            Level::Error => 1,
            Level::Warn => 2,
            Level::Info => 3,
            Level::Debug => 4,
            Level::Trace => 5,
        }
    }

    /// The name under which the level appears in a log line.
    pub open spec fn name(self) -> Seq<char> {
        match self {
            Level::Error => seq!['E', 'R', 'R', 'O', 'R'],
            Level::Warn => seq!['W', 'A', 'R', 'N'],
            Level::Info => seq!['I', 'N', 'F', 'O'],
            Level::Debug => seq!['D', 'E', 'B', 'U', 'G'],
            Level::Trace => seq!['T', 'R', 'A', 'C', 'E'],
        }
    }

    /// Whether a record of this level passes a filter that lets through
    /// `threshold` and everything more severe.
    pub open spec fn passes(self, threshold: Level) -> bool {
        self.ordinal() <= threshold.ordinal()
    }
}

/// Compares two levels with the `<=` of `log::Level`, which that crate derives
/// from the order of its variants: `Error < Warn < Info < Debug < Trace`. The
/// contract says that the result is the comparison of the ordinals.
#[verifier::external_body]
pub(crate) fn level_le(a: Level, b: Level) -> (le: bool)
    ensures
        le == (a.ordinal() <= b.ordinal()),
{
    let facade = |level: Level| match level {
        Level::Error => log::Level::Error,
        Level::Warn => log::Level::Warn,
        Level::Info => log::Level::Info,
        Level::Debug => log::Level::Debug,
        Level::Trace => log::Level::Trace,
    };
    facade(a) <= facade(b)
}

/// Calls `log::Level::as_str`, which returns the upper-case name of the level,
/// the same text as its `Display` prints. The contract says which name belongs
/// to which level.
#[verifier::external_body]
pub(crate) fn level_name(level: Level) -> (text: &'static str)
    ensures
        text@ == level.name(),
{
    match level {
        Level::Error => log::Level::Error.as_str(),
        Level::Warn => log::Level::Warn.as_str(),
        Level::Info => log::Level::Info.as_str(),
        Level::Debug => log::Level::Debug.as_str(),
        Level::Trace => log::Level::Trace.as_str(),
    }
}

} // verus!
