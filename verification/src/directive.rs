//! Filter directives: `target=level` or a bare `level`, parsed and rendered.

use vstd::prelude::*;

use crate::level::Level;
use crate::level::level_name;
use crate::level::level_name_string;
use crate::level::parse_level;
use crate::level::spec_parse_level;

verus! {

/// A character the target-pattern part of a directive may hold.
pub open spec fn valid_pattern_char(c: char) -> bool {
    ||| 'a' <= c && c <= 'z'
    ||| 'A' <= c && c <= 'Z'
    ||| '0' <= c && c <= '9'
    ||| c == '_'
    ||| c == ':'
    ||| c == '-'
}

/// A target pattern is any run of pattern characters; empty matches all targets.
pub open spec fn valid_pattern(s: Seq<char>) -> bool {
    forall|i: int| 0 <= i < s.len() ==> valid_pattern_char(#[trigger] s[i])
}

/// Index of the first `=` in `s`, or `s.len()` if there is none.
pub open spec fn first_eq(s: Seq<char>) -> int
    decreases s.len(),
{
    if s.len() == 0 {
        0
    } else if s[0] == '=' {
        0
    } else {
        1 + first_eq(s.subrange(1, s.len() as int))
    }
}

pub proof fn lemma_first_eq(s: Seq<char>)
    ensures
        0 <= first_eq(s) <= s.len(),
        first_eq(s) < s.len() ==> s[first_eq(s)] == '=',
        forall|j: int| 0 <= j < first_eq(s) ==> s[j] != '=',
    decreases s.len(),
{
    if s.len() > 0 && s[0] != '=' {
        let rest = s.subrange(1, s.len() as int);
        lemma_first_eq(rest);
        assert forall|j: int| 0 <= j < first_eq(s) implies s[j] != '=' by {
            if j > 0 {
                assert(rest[j - 1] != '=');
            }
        }
    }
}

/// The first `=` is at `k` exactly when `k` carries `=` and nothing before it does.
pub proof fn lemma_first_eq_at(s: Seq<char>, k: int)
    requires
        0 <= k < s.len(),
        s[k] == '=',
        forall|j: int| 0 <= j < k ==> s[j] != '=',
    ensures
        first_eq(s) == k,
{
    lemma_first_eq(s);
    if first_eq(s) < k {
        assert(s[first_eq(s)] != '=');
    }
    if first_eq(s) > k {
        assert(s[k] != '=');
    }
}

/// A string without `=` has no first `=` before its end.
pub proof fn lemma_first_eq_none(s: Seq<char>)
    requires
        forall|j: int| 0 <= j < s.len() ==> s[j] != '=',
    ensures
        first_eq(s) == s.len(),
{
    lemma_first_eq(s);
    if first_eq(s) < s.len() {
        assert(s[first_eq(s)] != '=');
    }
}

/// The directive grammar: `target=level`, or a bare `level` whose pattern is
/// empty. The result is the (pattern, minimum level) pair, or nothing where
/// the string is malformed.
pub open spec fn spec_parse_directive(s: Seq<char>) -> Option<(Seq<char>, Level)> {
    let i = first_eq(s);
    if i < s.len() {
        let pat = s.subrange(0, i);
        let lev = s.subrange(i + 1, s.len() as int);
        match spec_parse_level(lev) {
            Some(l) => if valid_pattern(pat) {
                Some((pat, l))
            } else {
                None
            },
            None => None,
        }
    } else {
        match spec_parse_level(s) {
            Some(l) => Some((Seq::empty(), l)),
            None => None,
        }
    }
}

/// A malformed directive string, surfaced before anything is installed.
#[derive(Debug)]
pub struct ParseError {
    /// The offending directive string, as it was given.
    pub input: String,
}

/// One admission rule: a target pattern and the least severity it lets through.
#[derive(Debug)]
pub struct Directive {
    pattern: String,
    level: Level,
}

impl Directive {
    /// The target pattern; empty matches every target.
    pub closed spec fn spec_pattern(&self) -> Seq<char> {
        self.pattern@
    }

    /// The minimum severity this directive demands.
    pub closed spec fn spec_level(&self) -> Level {
        self.level
    }

    /// Validity: the pattern holds only pattern characters.
    pub open spec fn wf(&self) -> bool {
        valid_pattern(self.spec_pattern())
    }

    #[verifier::type_invariant]
    pub open spec fn type_inv(&self) -> bool {
        self.wf()
    }

    /// Builds a directive from parts, rejecting an invalid pattern.
    pub fn new(pattern: &str, level: Level) -> (r: Result<Directive, ParseError>)
        ensures
            match r {
                Ok(d) => valid_pattern(pattern@) && d.spec_pattern() == pattern@
                    && d.spec_level() == level,
                Err(e) => !valid_pattern(pattern@) && e.input@ == pattern@,
            },
    {
        if is_valid_pattern_str(pattern) {
            Ok(Directive { pattern: pattern.to_owned(), level })
        } else {
            Err(ParseError { input: pattern.to_owned() })
        }
    }

    /// A directive with the empty pattern, which matches every target.
    pub fn bare(level: Level) -> (d: Directive)
        ensures
            d.spec_pattern() == Seq::<char>::empty(),
            d.spec_level() == level,
    {
        let d = Directive { pattern: String::new(), level };
        proof {
            assert(d.spec_pattern() =~= Seq::<char>::empty());
        }
        d
    }

    pub fn pattern(&self) -> (r: &String)
        ensures
            r@ == self.spec_pattern(),
    {
        &self.pattern
    }

    pub fn level(&self) -> (r: Level)
        ensures
            r == self.spec_level(),
    {
        self.level
    }

    /// Writes the directive back in the grammar's own form.
    pub fn render(&self) -> (r: String)
        ensures
            r@ == spec_render(self.spec_pattern(), self.spec_level()),
    {
        if self.pattern.as_str().is_empty() {
            level_name_string(self.level)
        } else {
            let mut r = self.pattern.clone();
            r.append("=");
            let name = level_name_string(self.level);
            r.append(name.as_str());
            proof {
                reveal_strlit("=");
                assert(r@ =~= spec_render(self.spec_pattern(), self.spec_level()));
            }
            r
        }
    }
}

impl Clone for Directive {
    fn clone(&self) -> (r: Self)
        ensures
            r == *self,
    {
        proof {
            use_type_invariant(self);
        }
        Directive { pattern: self.pattern.clone(), level: self.level }
    }
}

/// A directive in the grammar's written form: `pattern=level`, or the bare
/// level name where the pattern is empty.
pub open spec fn spec_render(pattern: Seq<char>, l: Level) -> Seq<char> {
    if pattern.len() == 0 {
        level_name(l)
    } else {
        pattern + seq!['='] + level_name(l)
    }
}

/// A string in the renderer's own output form: some valid directive written
/// back out.
pub open spec fn rendered_directive(s: Seq<char>) -> bool {
    exists|p: Seq<char>, l: Level| s == #[trigger] spec_render(p, l) && valid_pattern(p)
}

pub fn is_valid_pattern_char(c: char) -> (r: bool)
    ensures
        r == valid_pattern_char(c),
{
    ('a' <= c && c <= 'z') || ('A' <= c && c <= 'Z') || ('0' <= c && c <= '9') || c == '_'
        || c == ':' || c == '-'
}

pub fn is_valid_pattern_str(s: &str) -> (r: bool)
    ensures
        r == valid_pattern(s@),
{
    let n = s.unicode_len();
    let mut i: usize = 0;
    while i < n
        invariant
            i <= n,
            n == s@.len(),
            forall|j: int| 0 <= j < i ==> valid_pattern_char(#[trigger] s@[j]),
        decreases n - i,
    {
        if !is_valid_pattern_char(s.get_char(i)) {
            return false;
        }
        i += 1;
    }
    true
}

/// Parses one directive string under the grammar; a malformed string is
/// rejected with the offending input, and nothing else is touched.
pub fn parse_directive(s: &str) -> (r: Result<Directive, ParseError>)
    ensures
        match r {
            Ok(d) => spec_parse_directive(s@) == Some((d.spec_pattern(), d.spec_level())),
            Err(e) => spec_parse_directive(s@) is None && e.input@ == s@,
        },
{
    let n = s.unicode_len();
    let mut i: usize = 0;
    while i < n && s.get_char(i) != '='
        invariant
            i <= n,
            n == s@.len(),
            forall|j: int| 0 <= j < i ==> s@[j] != '=',
        decreases n - i,
    {
        i += 1;
    }
    if i < n {
        proof {
            lemma_first_eq_at(s@, i as int);
        }
        let pat = s.substring_char(0, i);
        let lev = s.substring_char(i + 1, n);
        if !is_valid_pattern_str(pat) {
            return Err(ParseError { input: s.to_owned() });
        }
        match parse_level(lev) {
            Some(l) => Ok(Directive { pattern: pat.to_owned(), level: l }),
            None => Err(ParseError { input: s.to_owned() }),
        }
    } else {
        proof {
            lemma_first_eq_none(s@);
        }
        match parse_level(s) {
            Some(l) => {
                let d = Directive { pattern: String::new(), level: l };
                proof {
                    assert(d.spec_pattern() =~= Seq::<char>::empty());
                }
                Ok(d)
            },
            None => Err(ParseError { input: s.to_owned() }),
        }
    }
}

/// Parses a whole sequence of directive strings, in order. The first
/// malformed string is reported as the error, with nothing constructed; a
/// malformed directive therefore surfaces before any global state is touched.
pub fn parse_directives(inputs: &Vec<String>) -> (r: Result<Vec<Directive>, ParseError>)
    ensures
        match r {
            Ok(ds) => ds@.len() == inputs@.len() && forall|i: int|
                0 <= i < inputs@.len() ==> #[trigger] spec_parse_directive(inputs@[i]@) == Some(
                    (ds@[i].spec_pattern(), ds@[i].spec_level()),
                ),
            Err(e) => exists|i: int|
                0 <= i < inputs@.len() && #[trigger] spec_parse_directive(inputs@[i]@) is None
                    && e.input@ == inputs@[i]@ && (forall|j: int|
                    0 <= j < i ==> #[trigger] spec_parse_directive(inputs@[j]@) is Some),
        },
{
    let mut ds: Vec<Directive> = Vec::new();
    let mut i: usize = 0;
    while i < inputs.len()
        invariant
            i <= inputs.len(),
            ds@.len() == i,
            forall|j: int|
                0 <= j < i ==> #[trigger] spec_parse_directive(inputs@[j]@) == Some(
                    (ds@[j].spec_pattern(), ds@[j].spec_level()),
                ),
        decreases inputs.len() - i,
    {
        match parse_directive(inputs[i].as_str()) {
            Ok(d) => {
                ds.push(d);
            },
            Err(e) => {
                return Err(e);
            },
        }
        i += 1;
    }
    Ok(ds)
}

/// No pattern character is `=`, so a valid pattern never hides one.
pub proof fn lemma_pattern_has_no_eq(s: Seq<char>)
    requires
        valid_pattern(s),
    ensures
        forall|j: int| 0 <= j < s.len() ==> s[j] != '=',
{
    assert forall|j: int| 0 <= j < s.len() implies s[j] != '=' by {
        assert(valid_pattern_char(s[j]));
    }
}

/// No level name holds `=`.
pub proof fn lemma_level_name_has_no_eq(l: Level)
    ensures
        forall|j: int| 0 <= j < level_name(l).len() ==> level_name(l)[j] != '=',
{
}

/// A level's own name always parses back to that level.
pub proof fn lemma_parse_level_name(l: Level)
    ensures
        spec_parse_level(level_name(l)) == Some(l),
{
}

/// Rendering, then parsing, gives back the directive: the grammar and the
/// writer agree, and a rendered directive is never rejected.
pub proof fn lemma_render_parses(pattern: Seq<char>, l: Level)
    requires
        valid_pattern(pattern),
    ensures
        spec_parse_directive(spec_render(pattern, l)) == Some((pattern, l)),
{
    lemma_parse_level_name(l);
    if pattern.len() == 0 {
        let s = spec_render(pattern, l);
        lemma_level_name_has_no_eq(l);
        lemma_first_eq_none(s);
        assert(pattern =~= Seq::<char>::empty());
    } else {
        let s = pattern + seq!['='] + level_name(l);
        lemma_pattern_has_no_eq(pattern);
        assert(s[pattern.len() as int] == '=');
        assert forall|j: int| 0 <= j < pattern.len() implies s[j] != '=' by {
            assert(s[j] == pattern[j]);
        }
        lemma_first_eq_at(s, pattern.len() as int);
        assert(s.subrange(0, pattern.len() as int) =~= pattern);
        assert(s.subrange(pattern.len() as int + 1, s.len() as int) =~= level_name(l));
    }
}

} // verus!
