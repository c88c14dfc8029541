//! Severity levels.

use crate::paint::Color;
use std::cmp::Ordering;
use vstd::prelude::*;
use vstd::std_specs::cmp::PartialOrdSpecImpl;
use vstd::string::StringExecFns;

verus! {

/// The severity of a log entry, from the least to the most severe.
///
/// Levels compare by [`LogLevel::rank`], which is also the order of
/// declaration that the derived total order goes by.
#[derive(Clone, Copy, Debug, PartialEq, Eq, Ord, Hash, Structural)]
pub enum LogLevel {
    Trace,
    Debug,
    Info,
    Warning,
    Error,
    Fatal,
}

impl PartialOrd for LogLevel {
    fn partial_cmp(&self, other: &Self) -> (r: Option<Ordering>) {
        let mine = self.severity();
        let theirs = other.severity();
        if mine < theirs {
            Some(Ordering::Less)
        } else if mine == theirs {
            Some(Ordering::Equal)
        } else {
            Some(Ordering::Greater)
        }
    }
}

impl PartialOrdSpecImpl for LogLevel {
    open spec fn obeys_partial_cmp_spec() -> bool {
        true
    }

    open spec fn partial_cmp_spec(&self, other: &Self) -> Option<Ordering> {
        if self.rank() < other.rank() {
            Some(Ordering::Less)
        } else if self.rank() == other.rank() {
            Some(Ordering::Equal)
        } else {
            Some(Ordering::Greater)
        }
    }
}

impl LogLevel {
    /// The position of the level in the order
    /// `Trace < Debug < Info < Warning < Error < Fatal`.
    pub open spec fn rank(self) -> nat {
        match self {
            LogLevel::Trace => 0,
            LogLevel::Debug => 1,
            LogLevel::Info => 2,
            LogLevel::Warning => 3,
            LogLevel::Error => 4,
            LogLevel::Fatal => 5,
        }
    }

    /// The name under which the level is displayed.
    pub open spec fn name(self) -> Seq<char> {
        match self {
            LogLevel::Trace => "Trace"@,
            LogLevel::Debug => "Debug"@,
            LogLevel::Info => "Info"@,
            LogLevel::Warning => "Warning"@,
            LogLevel::Error => "Error"@,
            LogLevel::Fatal => "Fatal"@,
        }
    }

    /// The colour in which the level is displayed.
    pub open spec fn hue(self) -> Color {
        match self {
            LogLevel::Trace => Color::Cyan,
            LogLevel::Debug => Color::Blue,
            LogLevel::Info => Color::Green,
            LogLevel::Warning => Color::Yellow,
            LogLevel::Error => Color::Red,
            LogLevel::Fatal => Color::Magenta,
        }
    }

    /// True for the levels that only inform: their source snippets are marked
    /// in bold alone, those of the other levels in bold and in the level's colour.
    pub open spec fn is_informational(self) -> bool {
        self.rank() <= LogLevel::Info.rank()
    }

    /// The level's position in the order of severity, `Trace` being 0.
    pub fn severity(self) -> (r: u8)
        ensures
            r == self.rank(),
    {
        match self {
            LogLevel::Trace => 0,
            LogLevel::Debug => 1,
            LogLevel::Info => 2,
            LogLevel::Warning => 3,
            LogLevel::Error => 4,
            LogLevel::Fatal => 5,
        }
    }

    /// The colour in which the level is displayed.
    pub fn color(self) -> (c: Color)
        ensures
            c == self.hue(),
    {
        match self {
            LogLevel::Trace => Color::Cyan,
            LogLevel::Debug => Color::Blue,
            LogLevel::Info => Color::Green,
            LogLevel::Warning => Color::Yellow,
            LogLevel::Error => Color::Red,
            LogLevel::Fatal => Color::Magenta,
        }
    }

    /// The name under which the level is displayed.
    pub fn to_string(&self) -> (s: String)
        ensures
            s@ == self.name(),
    {
        match self {
            LogLevel::Trace => String::from_str("Trace"),
            LogLevel::Debug => String::from_str("Debug"),
            LogLevel::Info => String::from_str("Info"),
            LogLevel::Warning => String::from_str("Warning"),
            LogLevel::Error => String::from_str("Error"),
            LogLevel::Fatal => String::from_str("Fatal"),
        }
    }
}

} // verus!
