//! Severity levels of filter directives, their ordering, their textual names.

use vstd::prelude::*;

verus! {

/// Minimum-severity levels recognised by the directive grammar.
#[derive(Debug, Clone, Copy, PartialEq, Eq, Structural)]
pub enum Level {
    Trace,
    Debug,
    Info,
    Warn,
    Error,
}

/// Numeric severity of a level; higher is more severe.
pub open spec fn severity(l: Level) -> nat {
    match l {
        Level::Trace => 0,
        Level::Debug => 1,
        Level::Info => 2,
        Level::Warn => 3,
        Level::Error => 4,
    }
}

impl Level {
    /// Severity as a machine integer.
    pub fn severity_index(self) -> (r: u8)
        ensures
            r as nat == severity(self),
    {
        match self {
            Level::Trace => 0,
            Level::Debug => 1,
            Level::Info => 2,
            Level::Warn => 3,
            Level::Error => 4,
        }
    }

    /// Whether an event at level `self` passes a rule demanding at least `min`.
    pub fn admitted_by(self, min: Level) -> (r: bool)
        ensures
            r == (severity(self) >= severity(min)),
    {
        self.severity_index() >= min.severity_index()
    }
}

/// The textual name of a level, as the directive grammar writes it.
pub open spec fn level_name(l: Level) -> Seq<char> {
    match l {
        Level::Trace => seq!['t', 'r', 'a', 'c', 'e'],
        Level::Debug => seq!['d', 'e', 'b', 'u', 'g'],
        Level::Info => seq!['i', 'n', 'f', 'o'],
        Level::Warn => seq!['w', 'a', 'r', 'n'],
        Level::Error => seq!['e', 'r', 'r', 'o', 'r'],
    }
}

/// Which level a token denotes: exactly the five lower-case names.
pub open spec fn spec_parse_level(s: Seq<char>) -> Option<Level> {
    if s == level_name(Level::Trace) {
        Some(Level::Trace)
    } else if s == level_name(Level::Debug) {
        Some(Level::Debug)
    } else if s == level_name(Level::Info) {
        Some(Level::Info)
    } else if s == level_name(Level::Warn) {
        Some(Level::Warn)
    } else if s == level_name(Level::Error) {
        Some(Level::Error)
    } else {
        None
    }
}

/// Parses a level token.
pub fn parse_level(s: &str) -> (r: Option<Level>)
    ensures
        r == spec_parse_level(s@),
{
    let n = s.unicode_len();
    if n == 5 && s.get_char(0) == 't' && s.get_char(1) == 'r' && s.get_char(2) == 'a'
        && s.get_char(3) == 'c' && s.get_char(4) == 'e' {
        proof {
            assert(s@ =~= level_name(Level::Trace));
        }
        Some(Level::Trace)
    } else if n == 5 && s.get_char(0) == 'd' && s.get_char(1) == 'e' && s.get_char(2) == 'b'
        && s.get_char(3) == 'u' && s.get_char(4) == 'g' {
        proof {
            assert(s@ =~= level_name(Level::Debug));
        }
        Some(Level::Debug)
    } else if n == 4 && s.get_char(0) == 'i' && s.get_char(1) == 'n' && s.get_char(2) == 'f'
        && s.get_char(3) == 'o' {
        proof {
            assert(s@ =~= level_name(Level::Info));
        }
        Some(Level::Info)
    } else if n == 4 && s.get_char(0) == 'w' && s.get_char(1) == 'a' && s.get_char(2) == 'r'
        && s.get_char(3) == 'n' {
        proof {
            assert(s@ =~= level_name(Level::Warn));
        }
        Some(Level::Warn)
    } else if n == 5 && s.get_char(0) == 'e' && s.get_char(1) == 'r' && s.get_char(2) == 'r'
        && s.get_char(3) == 'o' && s.get_char(4) == 'r' {
        proof {
            assert(s@ =~= level_name(Level::Error));
        }
        Some(Level::Error)
    } else {
        None
    }
}

/// The name of a level as an owned string.
pub fn level_name_string(l: Level) -> (r: String)
    ensures
        r@ == level_name(l),
{
    match l {
        Level::Trace => {
            let r = String::from_str("trace");
            proof {
                reveal_strlit("trace");
                assert(r@ =~= level_name(Level::Trace));
            }
            r
        },
        Level::Debug => {
            let r = String::from_str("debug");
            proof {
                reveal_strlit("debug");
                assert(r@ =~= level_name(Level::Debug));
            }
            r
        },
        Level::Info => {
            let r = String::from_str("info");
            proof {
                reveal_strlit("info");
                assert(r@ =~= level_name(Level::Info));
            }
            r
        },
        Level::Warn => {
            let r = String::from_str("warn");
            proof {
                reveal_strlit("warn");
                assert(r@ =~= level_name(Level::Warn));
            }
            r
        },
        Level::Error => {
            let r = String::from_str("error");
            proof {
                reveal_strlit("error");
                assert(r@ =~= level_name(Level::Error));
            }
            r
        },
    }
}

} // verus!
