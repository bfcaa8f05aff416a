//! Selecting the log filtering level from the verbosity value.

use vstd::prelude::*;

verus! {

/// Log filtering levels, coarsest first.
#[derive(Debug, PartialEq, Eq, Structural, Clone, Copy)]
pub enum FilterLevel {
    Off,
    Critical,
    Error,
    Warning,
    Info,
    Debug,
    Trace,
}

/// The default logging level.
pub fn default_level() -> (r: FilterLevel)
    ensures
        r == FilterLevel::Info,
{
    FilterLevel::Info
}

/// The default filtering level; must agree with [`default_level`].
pub fn default_filter_level() -> (r: FilterLevel)
    ensures
        r == FilterLevel::Info,
{
    FilterLevel::Info
}

/// Levels selected by increasing verbosity, starting at the default.
pub fn positive_verbosity_levels() -> (r: Vec<FilterLevel>)
    ensures
        r@ == seq![FilterLevel::Info, FilterLevel::Debug, FilterLevel::Trace],
{
    let mut r: Vec<FilterLevel> = Vec::new();
    r.push(FilterLevel::Info);
    r.push(FilterLevel::Debug);
    r.push(FilterLevel::Trace);
    proof {
        assert(r@ =~= seq![FilterLevel::Info, FilterLevel::Debug, FilterLevel::Trace]);
    }
    r
}

/// Levels selected by decreasing verbosity, starting at the default.
pub fn negative_verbosity_levels() -> (r: Vec<FilterLevel>)
    ensures
        r@ == seq![
            FilterLevel::Info,
            FilterLevel::Warning,
            FilterLevel::Error,
            FilterLevel::Critical,
            FilterLevel::Off,
        ],
{
    let mut r: Vec<FilterLevel> = Vec::new();
    r.push(FilterLevel::Info);
    r.push(FilterLevel::Warning);
    r.push(FilterLevel::Error);
    r.push(FilterLevel::Critical);
    r.push(FilterLevel::Off);
    proof {
        assert(r@ =~= seq![
            FilterLevel::Info,
            FilterLevel::Warning,
            FilterLevel::Error,
            FilterLevel::Critical,
            FilterLevel::Off,
        ]);
    }
    r
}

/// The level a verbosity selects, and whether the flag was passed too many
/// times (the level is then clamped to the end of the scale).
pub open spec fn spec_level_for_verbosity(v: int) -> (FilterLevel, bool) {
    if v >= 3 {
        (FilterLevel::Trace, true)
    } else if v == 2 {
        (FilterLevel::Trace, false)
    } else if v == 1 {
        (FilterLevel::Debug, false)
    } else if v == 0 {
        (FilterLevel::Info, false)
    } else if v == -1 {
        (FilterLevel::Warning, false)
    } else if v == -2 {
        (FilterLevel::Error, false)
    } else if v == -3 {
        (FilterLevel::Critical, false)
    } else if v == -4 {
        (FilterLevel::Off, false)
    } else {
        (FilterLevel::Off, true)
    }
}

/// Determines the log filtering level for a verbosity value.
pub fn level_for_verbosity(verbosity: isize) -> (r: (FilterLevel, bool))
    ensures
        r == spec_level_for_verbosity(verbosity as int),
{
    if verbosity >= 3 {
        (FilterLevel::Trace, true)
    } else if verbosity == 2 {
        (FilterLevel::Trace, false)
    } else if verbosity == 1 {
        (FilterLevel::Debug, false)
    } else if verbosity == 0 {
        (FilterLevel::Info, false)
    } else if verbosity == -1 {
        (FilterLevel::Warning, false)
    } else if verbosity == -2 {
        (FilterLevel::Error, false)
    } else if verbosity == -3 {
        (FilterLevel::Critical, false)
    } else if verbosity == -4 {
        (FilterLevel::Off, false)
    } else {
        (FilterLevel::Off, true)
    }
}

} // verus!
