//! Log levels, and the filters that are set on them.

use vstd::prelude::*;

verus! {

/// How severe a log message is.
#[derive(Debug, Clone, Copy, PartialEq, Eq, Structural)]
pub enum Level {
    /// Very serious errors.
    Error,
    /// Hazardous situations.
    Warn,
    /// Useful information.
    Info,
    /// Lower priority information.
    Debug,
    /// Very low priority, often extremely verbose, information.
    Trace,
}

/// Which log messages are let through.
#[derive(Debug, Clone, Copy, PartialEq, Eq, Structural)]
pub enum LevelFilter {
    /// None.
    Off,
    /// Those of the level `Error`.
    Error,
    /// Those of the level `Warn` and more severe ones.
    Warn,
    /// Those of the level `Info` and more severe ones.
    Info,
    /// Those of the level `Debug` and more severe ones.
    Debug,
    /// All.
    Trace,
}

impl Level {
    /// The place of the level among the levels, from the most severe on.
    pub open spec fn spec_rank(self) -> int {
        match self {
            Level::Error => 1,
            Level::Warn => 2,
            Level::Info => 3,
            Level::Debug => 4,
            Level::Trace => 5,
        }
    }

    /// The name of the level.
    pub open spec fn spec_name(self) -> Seq<char> {
        match self {
            Level::Error => "ERROR"@,
            Level::Warn => "WARN"@,
            Level::Info => "INFO"@,
            Level::Debug => "DEBUG"@,
            Level::Trace => "TRACE"@,
        }
    }

    /// The place of the level among the levels, from the most severe on.
    pub fn rank(self) -> (rank: u8)
        ensures
            rank == self.spec_rank(),
    {
        match self {
            Level::Error => 1,
            Level::Warn => 2,
            Level::Info => 3,
            Level::Debug => 4,
            Level::Trace => 5,
        }
    }

    /// Whether the filter lets messages of this level through.
    pub open spec fn spec_passes(self, filter: LevelFilter) -> bool {
        self.spec_rank() <= filter.spec_rank()
    }

    /// Whether the filter lets messages of this level through.
    pub fn passes(self, filter: LevelFilter) -> (yes: bool)
        ensures
            yes == self.spec_passes(filter),
    {
        self.rank() <= filter.rank()
    }
}

impl LevelFilter {
    /// The place of the filter among the filters, from the strictest on.
    pub open spec fn spec_rank(self) -> int {
        match self {
            LevelFilter::Off => 0,
            LevelFilter::Error => 1,
            LevelFilter::Warn => 2,
            LevelFilter::Info => 3,
            LevelFilter::Debug => 4,
            LevelFilter::Trace => 5,
        }
    }

    /// The place of the filter among the filters, from the strictest on.
    pub fn rank(self) -> (rank: u8)
        ensures
            rank == self.spec_rank(),
    {
        match self {
            LevelFilter::Off => 0,
            LevelFilter::Error => 1,
            LevelFilter::Warn => 2,
            LevelFilter::Info => 3,
            LevelFilter::Debug => 4,
            LevelFilter::Trace => 5,
        }
    }

    /// The more permissive one of two filters.
    pub open spec fn spec_or(self, other: LevelFilter) -> LevelFilter {
        if self.spec_rank() < other.spec_rank() {
            other
        } else {
            self
        }
    }

    /// The more permissive one of two filters.
    pub fn or(self, other: LevelFilter) -> (filter: LevelFilter)
        ensures
            filter == self.spec_or(other),
    {
        if self.rank() < other.rank() {
            other
        } else {
            self
        }
    }
}

/// Calls `log::LevelFilter::max`: the most permissive filter is `Trace`.
#[verifier::external_body]
pub(crate) fn most_permissive() -> (filter: LevelFilter)
    ensures
        filter == LevelFilter::Trace,
{
    match log::LevelFilter::max() {
        log::LevelFilter::Off => LevelFilter::Off,
        log::LevelFilter::Error => LevelFilter::Error,
        log::LevelFilter::Warn => LevelFilter::Warn,
        log::LevelFilter::Info => LevelFilter::Info,
        log::LevelFilter::Debug => LevelFilter::Debug,
        log::LevelFilter::Trace => LevelFilter::Trace,
    }
}

/// Calls `to_string` on a `log::Level`: the level reads as its name, in capital
/// letters.
#[verifier::external_body]
pub(crate) fn level_name(level: Level) -> (name: String)
    ensures
        name@ == level.spec_name(),
{
    let level = match level {
        Level::Error => log::Level::Error,
        Level::Warn => log::Level::Warn,
        Level::Info => log::Level::Info,
        Level::Debug => log::Level::Debug,
        Level::Trace => log::Level::Trace,
    };
    level.to_string()
}

/// Which levels a filter lets through: none, all, or its own and the more severe
/// ones.
pub proof fn law_filters_let_severe_levels_through(level: Level, filter: LevelFilter)
    ensures
        level.spec_passes(filter) <==> match filter {
            LevelFilter::Off => false,
            LevelFilter::Error => level is Error,
            LevelFilter::Warn => level is Error || level is Warn,
            LevelFilter::Info => level is Error || level is Warn || level is Info,
            LevelFilter::Debug => !(level is Trace),
            LevelFilter::Trace => true,
        },
{
}

/// The more permissive one of two filters lets through what either does, and is one
/// of the two.
pub proof fn law_the_more_permissive_filter(one: LevelFilter, other: LevelFilter, level: Level)
    ensures
        level.spec_passes(one.spec_or(other)) <==> level.spec_passes(one) || level.spec_passes(
            other,
        ),
        one.spec_or(other) == one || one.spec_or(other) == other,
{
}

} // verus!
