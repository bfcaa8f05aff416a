use cargo_contribute::logging;
use cargo_contribute::logging::FilterLevel;

#[test]
fn default_level() {
    let level = logging::default_level();
    let filter_level = logging::default_filter_level();
    assert_eq!(
        level, filter_level,
        "Default logging level is defined inconsistently: Level::{:?} vs. FilterLevel::{:?}",
        level, filter_level
    );
}

#[test]
fn verbosity_levels() {
    assert_eq!(logging::negative_verbosity_levels()[0], logging::positive_verbosity_levels()[0]);
    assert!(
        logging::negative_verbosity_levels().contains(&FilterLevel::Off),
        "Verbosity levels don't allow to turn logging off completely"
    );
}

#[test]
fn level_for_verbosity_follows_the_scales() {
    assert_eq!(logging::level_for_verbosity(0), (FilterLevel::Info, false));
    assert_eq!(logging::level_for_verbosity(1), (FilterLevel::Debug, false));
    assert_eq!(logging::level_for_verbosity(2), (FilterLevel::Trace, false));
    assert_eq!(logging::level_for_verbosity(3), (FilterLevel::Trace, true));
    assert_eq!(logging::level_for_verbosity(100), (FilterLevel::Trace, true));
    assert_eq!(logging::level_for_verbosity(-1), (FilterLevel::Warning, false));
    assert_eq!(logging::level_for_verbosity(-2), (FilterLevel::Error, false));
    assert_eq!(logging::level_for_verbosity(-3), (FilterLevel::Critical, false));
    assert_eq!(logging::level_for_verbosity(-4), (FilterLevel::Off, false));
    assert_eq!(logging::level_for_verbosity(-5), (FilterLevel::Off, true));
    assert_eq!(logging::level_for_verbosity(isize::MIN), (FilterLevel::Off, true));
}
