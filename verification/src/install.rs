//! The global installer: options are composed into one subscriber — the
//! formatting layer scoped by the effective filter, plus the optional
//! diagnostic hook — and published as the process-wide default exactly once.

use vstd::prelude::*;

use tracing_subscriber::Layer;
use tracing_subscriber::layer::SubscriberExt;

use crate::directive::Directive;
use crate::directive::lemma_render_parses;
use crate::directive::rendered_directive;
use crate::directive::spec_parse_directive;
use crate::filter::dirs_view;
use crate::filter::fold_rules;
use crate::filter::spec_effective_from;
use crate::level::Level;
use crate::retention::RETENTION_WINDOW_SECS;

verus! {

/// The per-target rule table a runtime filter holds: the minimum level of
/// each span- and field-free directive, keyed by its target pattern, a bare
/// level directive standing under the empty pattern.
pub uninterp spec fn env_filter_rules(f: tracing_subscriber::EnvFilter) -> Map<Seq<char>, Level>;

#[verifier::external_type_specification]
#[verifier::external_body]
pub struct ExEnvFilter(tracing_subscriber::EnvFilter);

#[verifier::external_type_specification]
#[verifier::external_body]
pub struct ExSetGlobalDefaultError(tracing::subscriber::SetGlobalDefaultError);

/// Options for log configuration.
#[derive(Debug, Clone)]
pub struct LogOpts {
    /// Set the logging level based on the set of filter directives.
    pub log: Vec<Directive>,
    /// Turn off ANSI color codes in the logs.
    pub no_color: bool,
    /// Enable the diagnostic hook for live task introspection.
    pub enable_tokio_console: bool,
}

impl Default for LogOpts {
    /// No directives, color on, diagnostic hook off.
    fn default() -> (r: Self)
        ensures
            r.log@ == Seq::<Directive>::empty(),
            !r.no_color,
            !r.enable_tokio_console,
    {
        LogOpts { log: Vec::new(), no_color: false, enable_tokio_console: false }
    }
}

/// Failure of the fallible install entry point.
#[derive(Debug, Clone, Copy, PartialEq, Eq, Structural)]
pub enum InitError {
    /// A process-wide default subscriber was already set.
    AlreadyInstalled,
}

/// Relies on `tracing_subscriber::EnvFilter::from_default_env`: the ambient
/// base filter read from the `RUST_LOG` environment variable. Its value
/// depends on the environment, so nothing is assumed of it.
#[verifier::external_body]
fn base_env_filter() -> tracing_subscriber::EnvFilter {
    tracing_subscriber::EnvFilter::from_default_env()
}

/// Relies on `tracing_subscriber::EnvFilter::add_directive` and
/// `Directive::from_str`: a string in this library's rendered form —
/// `pattern=level` over alphanumerics, `_`, `:` and `-`, or a bare
/// lower-case level name — is accepted by tracing's grammar as a directive
/// with that target (none for a bare level) and no span or field part. Such
/// a directive joins the filter's static directive set, whose `add` replaces
/// the directive of equal target and keeps all others, so the rule table
/// gains or overrides exactly the entry of this pattern.
#[verifier::external_body]
fn env_filter_add(f: tracing_subscriber::EnvFilter, s: &String) -> (r:
    tracing_subscriber::EnvFilter)
    requires
        rendered_directive(s@),
    ensures
        env_filter_rules(r) == env_filter_rules(f).insert(
            spec_parse_directive(s@).unwrap().0,
            spec_parse_directive(s@).unwrap().1,
        ),
{
    f.add_directive(s.as_str().parse().expect("directive accepted by the grammar"))
}

/// Relies on `tracing::subscriber::set_global_default`: the composite
/// subscriber — a glog-formatted layer over standard error with local-time
/// stamps, ANSI color only when `ansi` holds, scoped by `filter`, plus, when
/// `with_console` holds, the console diagnostic layer with the given
/// completed-task retention — is set as the process default. The publisher
/// can only be set once; its result depends on process-wide state, so nothing
/// is assumed of which outcome comes back.
#[verifier::external_body]
fn install_composite(
    filter: tracing_subscriber::EnvFilter,
    ansi: bool,
    with_console: bool,
    retention_secs: u64,
) -> Result<(), tracing::subscriber::SetGlobalDefaultError> {
    let fmt = tracing_subscriber::fmt::Layer::default()
        .with_writer(std::io::stderr)
        .event_format(tracing_glog::Glog::default().with_timer(tracing_glog::LocalTime::default()))
        .with_ansi(ansi)
        .fmt_fields(tracing_glog::GlogFields::default())
        .with_filter(filter);
    let subscriber = tracing_subscriber::Registry::default().with(fmt);
    let console = if with_console {
        Some(console_subscriber::Builder::default().with_default_env().retention(
            std::time::Duration::from_secs(retention_secs),
        ).spawn())
    } else {
        None
    };
    tracing::subscriber::set_global_default(subscriber.with(console))
}

/// What the fallible install returns for each publish outcome: success passes
/// through, and the one failure the publisher knows — a default was already
/// set — becomes `AlreadyInstalled`.
pub fn interpret_install_outcome(
    r: Result<(), tracing::subscriber::SetGlobalDefaultError>,
) -> (out: Result<(), InitError>)
    ensures
        out is Ok <==> r is Ok,
        out is Err ==> out == Err::<(), InitError>(InitError::AlreadyInstalled),
{
    match r {
        Ok(()) => Ok(()),
        Err(_) => Err(InitError::AlreadyInstalled),
    }
}

/// Folds directives into the runtime filter exactly as the model folds them
/// into the effective filter: each directive adds or overrides its own
/// pattern's rule; with none supplied, the default all-targets `info` one.
fn fold_directives_into(filter: tracing_subscriber::EnvFilter, log: &Vec<Directive>) -> (r:
    tracing_subscriber::EnvFilter)
    ensures
        env_filter_rules(r) == spec_effective_from(env_filter_rules(filter), dirs_view(log@)),
{
    let ghost base = env_filter_rules(filter);
    let mut f = filter;
    if log.len() == 0 {
        let d = Directive::bare(Level::Info);
        let s = d.render();
        proof {
            lemma_render_parses(d.spec_pattern(), d.spec_level());
            assert(rendered_directive(s@));
        }
        f = env_filter_add(f, &s);
        proof {
            assert(dirs_view(log@).len() == 0);
        }
        f
    } else {
        let mut i: usize = 0;
        proof {
            assert(dirs_view(log@).subrange(0, 0) =~= Seq::<(Seq<char>, Level)>::empty());
            assert(fold_rules(base, Seq::<(Seq<char>, Level)>::empty()) == base);
        }
        while i < log.len()
            invariant
                i <= log.len(),
                env_filter_rules(f) == fold_rules(base, dirs_view(log@).subrange(0, i as int)),
            decreases log.len() - i,
        {
            let ghost pre = dirs_view(log@).subrange(0, i as int);
            let d = &log[i];
            proof {
                use_type_invariant(d);
            }
            let s = d.render();
            proof {
                lemma_render_parses(d.spec_pattern(), d.spec_level());
                assert(rendered_directive(s@));
            }
            f = env_filter_add(f, &s);
            proof {
                let post = dirs_view(log@).subrange(0, i as int + 1);
                assert(post.drop_last() =~= pre);
                assert(post.last() == (d.spec_pattern(), d.spec_level()));
            }
            i += 1;
        }
        proof {
            assert(dirs_view(log@).subrange(0, log@.len() as int) =~= dirs_view(log@));
        }
        f
    }
}

/// Initialize logging: composes the subscriber from the options — the
/// ambient base filter with the directives folded in, the formatting layer's
/// color following `no_color`, the diagnostic hook only when enabled — and
/// publishes it. Fails only when a process-wide default is already
/// installed, in which case nothing is replaced.
pub fn try_init_logging(opts: &LogOpts) -> (r: Result<(), InitError>)
    ensures
        r is Err ==> r == Err::<(), InitError>(InitError::AlreadyInstalled),
{
    let base = base_env_filter();
    let f = fold_directives_into(base, &opts.log);
    let outcome = install_composite(
        f,
        !opts.no_color,
        opts.enable_tokio_console,
        RETENTION_WINDOW_SECS,
    );
    interpret_install_outcome(outcome)
}

/// Outcome of one install attempt on a given prior state: from the
/// uninstalled state the attempt succeeds and the state becomes — and stays —
/// installed; from the installed state it fails with `AlreadyInstalled` and
/// nothing changes.
pub open spec fn spec_install_step(installed: bool) -> (bool, Result<(), InitError>) {
    if installed {
        (true, Err(InitError::AlreadyInstalled))
    } else {
        (true, Ok(()))
    }
}

/// The init-once lifecycle as an explicit process-scoped singleton state, so
/// callers can exercise the install contract against an injected state.
#[derive(Debug)]
pub struct Installer {
    installed: bool,
}

impl Installer {
    /// Whether installation has happened.
    pub closed spec fn spec_installed(&self) -> bool {
        self.installed
    }

    /// The state before any install attempt.
    pub fn new() -> (s: Installer)
        ensures
            !s.spec_installed(),
    {
        Installer { installed: false }
    }

    pub fn is_installed(&self) -> (r: bool)
        ensures
            r == self.spec_installed(),
    {
        self.installed
    }

    /// One install attempt: exactly the step of `spec_install_step`.
    pub fn try_install(&mut self) -> (r: Result<(), InitError>)
        ensures
            (final(self).spec_installed(), r) == spec_install_step(old(self).spec_installed()),
    {
        if self.installed {
            Err(InitError::AlreadyInstalled)
        } else {
            self.installed = true;
            Ok(())
        }
    }
}

/// Law: attempting to install twice, the first attempt succeeds, the second
/// fails with `AlreadyInstalled`, and the installed state reached by the
/// first attempt is never left.
pub proof fn lemma_install_twice()
    ensures
        ({
            let (s1, r1) = spec_install_step(false);
            let (s2, r2) = spec_install_step(s1);
            r1 == Ok::<(), InitError>(()) && s1 && r2 == Err::<(), InitError>(
                InitError::AlreadyInstalled,
            ) && s2
        }),
{
}

} // verus!
