use jt_init_logging::Level;
use jt_init_logging::parse_directive;
use jt_init_logging::parse_directives;
use jt_init_logging::Directive;

#[test]
fn bare_level_parses_to_empty_pattern() {
    let d = parse_directive("info").unwrap();
    assert_eq!(d.pattern().as_str(), "");
    assert_eq!(d.level(), Level::Info);
}

#[test]
fn target_and_level_parse() {
    let d = parse_directive("my_module::sub=debug").unwrap();
    assert_eq!(d.pattern().as_str(), "my_module::sub");
    assert_eq!(d.level(), Level::Debug);
}

#[test]
fn all_level_names_parse() {
    assert_eq!(parse_directive("trace").unwrap().level(), Level::Trace);
    assert_eq!(parse_directive("debug").unwrap().level(), Level::Debug);
    assert_eq!(parse_directive("info").unwrap().level(), Level::Info);
    assert_eq!(parse_directive("warn").unwrap().level(), Level::Warn);
    assert_eq!(parse_directive("error").unwrap().level(), Level::Error);
}

#[test]
fn malformed_directive_is_a_parse_error() {
    let e = parse_directive("not a valid level").unwrap_err();
    assert_eq!(e.input.as_str(), "not a valid level");
}

#[test]
fn bad_level_after_equals_is_rejected() {
    let e = parse_directive("web=loud").unwrap_err();
    assert_eq!(e.input.as_str(), "web=loud");
}

#[test]
fn bad_pattern_character_is_rejected() {
    assert!(parse_directive("my mod=info").is_err());
    assert!(parse_directive("a/b=warn").is_err());
}

#[test]
fn level_names_are_lower_case() {
    assert!(parse_directive("INFO").is_err());
    assert!(parse_directive("web=DEBUG").is_err());
}

#[test]
fn render_writes_the_grammar_form() {
    let d = Directive::new("web::server", Level::Warn).unwrap();
    assert_eq!(d.render().as_str(), "web::server=warn");
    let bare = parse_directive("error").unwrap();
    assert_eq!(bare.render().as_str(), "error");
}

#[test]
fn render_then_parse_round_trips() {
    let d = Directive::new("db:pool-1", Level::Trace).unwrap();
    let back = parse_directive(d.render().as_str()).unwrap();
    assert_eq!(back.pattern().as_str(), "db:pool-1");
    assert_eq!(back.level(), Level::Trace);
}

#[test]
fn new_rejects_invalid_pattern() {
    let e = Directive::new("has space", Level::Info).unwrap_err();
    assert_eq!(e.input.as_str(), "has space");
}

#[test]
fn directive_sequence_reports_first_bad_string() {
    let inputs = vec![
        String::from("info"),
        String::from("broken directive"),
        String::from("also bad"),
    ];
    let e = parse_directives(&inputs).unwrap_err();
    assert_eq!(e.input.as_str(), "broken directive");

    let good = vec![String::from("warn"), String::from("web=trace")];
    let ds = parse_directives(&good).unwrap();
    assert_eq!(ds.len(), 2);
    assert_eq!(ds[1].pattern().as_str(), "web");
    assert_eq!(ds[1].level(), Level::Trace);
}

#[test]
fn severity_order_is_trace_to_error() {
    assert!(Level::Error.admitted_by(Level::Info));
    assert!(Level::Info.admitted_by(Level::Info));
    assert!(!Level::Debug.admitted_by(Level::Info));
    assert!(!Level::Trace.admitted_by(Level::Debug));
    assert!(Level::Warn.admitted_by(Level::Trace));
}
