use jt_init_logging::InitError;
use jt_init_logging::Installer;
use jt_init_logging::LogOpts;
use jt_init_logging::parse_directives;
use jt_init_logging::try_init_logging;

#[test]
fn install_succeeds_once_then_reports_already_installed() {
    // a malformed directive fails at construction, before any global state
    // is touched ...
    let bad = vec![String::from("not a valid level")];
    let e = parse_directives(&bad).unwrap_err();
    assert_eq!(e.input.as_str(), "not a valid level");

    // ... so a valid install afterwards still succeeds
    let opts = LogOpts::default();
    assert!(try_init_logging(&opts).is_ok());

    // the default all-targets info directive was folded into the installed
    // filter, so the process-wide level reaches at least info
    let current = tracing::level_filters::LevelFilter::current();
    assert!(current >= tracing::level_filters::LevelFilter::INFO);

    // a second install attempt in the same process fails and replaces nothing
    let again = LogOpts { no_color: true, ..LogOpts::default() };
    assert_eq!(try_init_logging(&again), Err(InitError::AlreadyInstalled));
}

#[test]
fn installer_state_machine_is_install_once() {
    let mut st = Installer::new();
    assert!(!st.is_installed());
    assert_eq!(st.try_install(), Ok(()));
    assert!(st.is_installed());
    assert_eq!(st.try_install(), Err(InitError::AlreadyInstalled));
    assert!(st.is_installed());
    assert_eq!(st.try_install(), Err(InitError::AlreadyInstalled));
}

#[test]
fn default_options_are_plain() {
    let opts = LogOpts::default();
    assert!(opts.log.is_empty());
    assert!(!opts.no_color);
    assert!(!opts.enable_tokio_console);
}
