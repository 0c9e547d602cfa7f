//! Process-wide logging bootstrap: a global log sink is composed from a small
//! set of options (filter directives, a color toggle, an optional diagnostic
//! hook) and installed as the process default exactly once.
//!
//! The directive grammar, the fold that merges directives into one effective
//! filter, the admission rule, the install-once outcome handling, and the
//! retention bound of the diagnostic hook are verified here; the calls that
//! build and publish the actual subscriber stand behind trusted wrappers.

pub mod directive;
pub mod filter;
pub mod install;
pub mod level;
pub mod retention;

pub use directive::Directive;
pub use directive::ParseError;
pub use directive::parse_directive;
pub use directive::parse_directives;
pub use filter::EffectiveFilter;
pub use install::InitError;
pub use install::Installer;
pub use install::LogOpts;
pub use install::try_init_logging;
pub use level::Level;
pub use retention::CompletedTasks;
pub use retention::RETENTION_WINDOW_SECS;
pub use retention::TaskRecord;

