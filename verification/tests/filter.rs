use jt_init_logging::EffectiveFilter;
use jt_init_logging::Level;
use jt_init_logging::parse_directive;

fn dirs(specs: &[&str]) -> Vec<jt_init_logging::Directive> {
    specs.iter().map(|s| parse_directive(s).unwrap()).collect()
}

#[test]
fn empty_directive_sequence_defaults_to_info_everywhere() {
    let f = EffectiveFilter::build(&Vec::new(), &Vec::new());
    for target in ["", "anything", "deep::module::path"] {
        assert!(f.admits(target, Level::Info));
        assert!(f.admits(target, Level::Warn));
        assert!(f.admits(target, Level::Error));
        assert!(!f.admits(target, Level::Debug));
        assert!(!f.admits(target, Level::Trace));
    }
}

#[test]
fn supplied_directive_overrides_base_for_identical_pattern() {
    let base = dirs(&["info"]);
    let supplied = dirs(&["debug"]);
    let f = EffectiveFilter::build(&base, &supplied);
    assert!(f.admits("any::target", Level::Debug));
    assert!(!f.admits("any::target", Level::Trace));
}

#[test]
fn longest_matching_pattern_decides() {
    let supplied = dirs(&["info", "web=error", "web::db=trace"]);
    let f = EffectiveFilter::build(&Vec::new(), &supplied);
    assert!(f.admits("web::db::conn", Level::Trace));
    assert!(!f.admits("web::http", Level::Warn));
    assert!(f.admits("web::http", Level::Error));
    assert!(f.admits("other", Level::Info));
    assert!(!f.admits("other", Level::Debug));
}

#[test]
fn later_directive_wins_for_identical_pattern() {
    let supplied = dirs(&["web=info", "web=error"]);
    let f = EffectiveFilter::build(&Vec::new(), &supplied);
    assert!(!f.admits("web", Level::Warn));
    assert!(f.admits("web", Level::Error));
}

#[test]
fn reordering_distinct_patterns_gives_the_same_admissions() {
    let one = dirs(&["alpha=debug", "beta=warn", "gamma::x=trace"]);
    let two = dirs(&["gamma::x=trace", "alpha=debug", "beta=warn"]);
    let f1 = EffectiveFilter::build(&Vec::new(), &one);
    let f2 = EffectiveFilter::build(&Vec::new(), &two);
    for target in ["alpha", "alpha::y", "beta", "gamma::x", "gamma::x::z", "delta"] {
        for level in [Level::Trace, Level::Debug, Level::Info, Level::Warn, Level::Error] {
            assert_eq!(f1.admits(target, level), f2.admits(target, level));
        }
    }
}

#[test]
fn no_applicable_pattern_admits_nothing() {
    let supplied = dirs(&["web=trace"]);
    let f = EffectiveFilter::build(&Vec::new(), &supplied);
    assert!(!f.admits("database", Level::Error));
    assert!(f.admits("web::http", Level::Trace));
}

#[test]
fn empty_pattern_matches_every_target() {
    let supplied = dirs(&["warn"]);
    let f = EffectiveFilter::build(&Vec::new(), &supplied);
    assert!(f.admits("zzz::deep", Level::Warn));
    assert!(!f.admits("zzz::deep", Level::Info));
}

#[test]
fn base_accumulates_with_non_overlapping_supplied() {
    let base = dirs(&["db=warn"]);
    let supplied = dirs(&["web=debug"]);
    let f = EffectiveFilter::build(&base, &supplied);
    assert!(f.admits("db::pool", Level::Warn));
    assert!(!f.admits("db::pool", Level::Info));
    assert!(f.admits("web", Level::Debug));
    assert!(!f.admits("elsewhere", Level::Error));
}
