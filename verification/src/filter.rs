//! The effective filter: directives folded left-to-right into one admission
//! rule table, later directives overriding earlier ones of the same pattern,
//! and events judged by the longest matching pattern.

use vstd::prelude::*;
use vstd::seq_lib::lemma_multiset_commutative;

use crate::directive::Directive;
use crate::level::Level;
use crate::level::severity;

verus! {

/// A rule as the model sees it: a pattern and its minimum level.
pub open spec fn dirs_view(s: Seq<Directive>) -> Seq<(Seq<char>, Level)> {
    s.map_values(|d: Directive| (d.spec_pattern(), d.spec_level()))
}

/// Left-to-right fold of rules into a rule table: each rule adds or overrides
/// the entry for its own pattern, so the last rule of a pattern wins.
pub open spec fn fold_rules(
    m: Map<Seq<char>, Level>,
    s: Seq<(Seq<char>, Level)>,
) -> Map<Seq<char>, Level>
    decreases s.len(),
{
    if s.len() == 0 {
        m
    } else {
        fold_rules(m, s.drop_last()).insert(s.last().0, s.last().1)
    }
}

/// The rule table of a directive sequence on its own.
pub open spec fn rules_map(s: Seq<(Seq<char>, Level)>) -> Map<Seq<char>, Level> {
    fold_rules(Map::empty(), s)
}

/// Whether pattern `p` applies to target `t`: it is a prefix of `t`.
/// The empty pattern applies to every target.
pub open spec fn is_prefix(p: Seq<char>, t: Seq<char>) -> bool {
    p.len() <= t.len() && p == t.subrange(0, p.len() as int)
}

/// Admission by a rule table: some pattern applies to the target, and the
/// longest applicable pattern demands no more than the event's severity.
pub open spec fn spec_admits(m: Map<Seq<char>, Level>, target: Seq<char>, l: Level) -> bool {
    exists|p: Seq<char>|
        #[trigger] m.dom().contains(p) && is_prefix(p, target) && (forall|q: Seq<char>|
            #[trigger] m.dom().contains(q) && is_prefix(q, target) ==> q.len() <= p.len())
            && severity(l) >= severity(m[p])
}

/// The supplied directives folded into a given base table; with no supplied
/// directive, the default one admits `info` and above everywhere.
pub open spec fn spec_effective_from(
    base: Map<Seq<char>, Level>,
    supplied: Seq<(Seq<char>, Level)>,
) -> Map<Seq<char>, Level> {
    if supplied.len() == 0 {
        base.insert(Seq::empty(), Level::Info)
    } else {
        fold_rules(base, supplied)
    }
}

/// The rule table of base directives followed by the supplied ones.
pub open spec fn spec_effective(
    base: Seq<(Seq<char>, Level)>,
    supplied: Seq<(Seq<char>, Level)>,
) -> Map<Seq<char>, Level> {
    spec_effective_from(rules_map(base), supplied)
}

/// The longest applicable rule of a directive sequence, later rules of equal
/// pattern length taking precedence.
pub open spec fn best_rule(s: Seq<(Seq<char>, Level)>, t: Seq<char>) -> Option<(Seq<char>, Level)>
    decreases s.len(),
{
    if s.len() == 0 {
        None
    } else {
        let rest = best_rule(s.drop_last(), t);
        let x = s.last();
        if is_prefix(x.0, t) && (rest is None || x.0.len() >= rest.unwrap().0.len()) {
            Some(x)
        } else {
            rest
        }
    }
}

/// Two applicable patterns of one length are the same pattern.
pub proof fn lemma_prefix_same_len(p: Seq<char>, q: Seq<char>, t: Seq<char>)
    requires
        is_prefix(p, t),
        is_prefix(q, t),
        p.len() == q.len(),
    ensures
        p == q,
{
}

/// What the longest-rule scan says of the folded rule table.
pub proof fn lemma_best_rule_map(s: Seq<(Seq<char>, Level)>, t: Seq<char>)
    ensures
        match best_rule(s, t) {
            None => forall|p: Seq<char>|
                #[trigger] rules_map(s).dom().contains(p) ==> !is_prefix(p, t),
            Some(b) => rules_map(s).dom().contains(b.0) && is_prefix(b.0, t) && rules_map(s)[b.0]
                == b.1 && (forall|q: Seq<char>|
                #[trigger] rules_map(s).dom().contains(q) && is_prefix(q, t) ==> q.len()
                    <= b.0.len()),
        },
    decreases s.len(),
{
    if s.len() > 0 {
        let s0 = s.drop_last();
        let x = s.last();
        lemma_best_rule_map(s0, t);
        assert(rules_map(s) == rules_map(s0).insert(x.0, x.1));
        match best_rule(s0, t) {
            None => {
                if is_prefix(x.0, t) {
                    assert(best_rule(s, t) == Some(x));
                    assert forall|q: Seq<char>|
                        #[trigger] rules_map(s).dom().contains(q) && is_prefix(q, t) implies q.len()
                        <= x.0.len() by {
                        if q != x.0 {
                            assert(rules_map(s0).dom().contains(q));
                        }
                    }
                } else {
                    assert forall|p: Seq<char>|
                        #[trigger] rules_map(s).dom().contains(p) implies !is_prefix(p, t) by {
                        if p != x.0 {
                            assert(rules_map(s0).dom().contains(p));
                        }
                    }
                }
            },
            Some(b0) => {
                if is_prefix(x.0, t) && x.0.len() >= b0.0.len() {
                    assert(best_rule(s, t) == Some(x));
                    assert forall|q: Seq<char>|
                        #[trigger] rules_map(s).dom().contains(q) && is_prefix(q, t) implies q.len()
                        <= x.0.len() by {
                        if q != x.0 {
                            assert(rules_map(s0).dom().contains(q));
                        }
                    }
                } else {
                    assert(best_rule(s, t) == Some(b0));
                    if x.0 == b0.0 {
                        assert(is_prefix(x.0, t));
                        assert(x.0.len() >= b0.0.len());
                    }
                    assert(rules_map(s)[b0.0] == b0.1);
                    assert forall|q: Seq<char>|
                        #[trigger] rules_map(s).dom().contains(q) && is_prefix(q, t) implies q.len()
                        <= b0.0.len() by {
                        if q == x.0 {
                            assert(is_prefix(x.0, t));
                        } else {
                            assert(rules_map(s0).dom().contains(q));
                        }
                    }
                }
            },
        }
    }
}

/// Admission by the folded table agrees with the longest-rule scan.
pub proof fn lemma_admits_iff_best(s: Seq<(Seq<char>, Level)>, t: Seq<char>, l: Level)
    ensures
        spec_admits(rules_map(s), t, l) <==> match best_rule(s, t) {
            None => false,
            Some(b) => severity(l) >= severity(b.1),
        },
{
    lemma_best_rule_map(s, t);
    match best_rule(s, t) {
        None => {
            assert(!spec_admits(rules_map(s), t, l));
        },
        Some(b) => {
            if severity(l) >= severity(b.1) {
                let p = b.0;
                assert(rules_map(s).dom().contains(p) && is_prefix(p, t) && (forall|q: Seq<char>|
                    #[trigger] rules_map(s).dom().contains(q) && is_prefix(q, t) ==> q.len()
                        <= p.len()) && severity(l) >= severity(rules_map(s)[p]));
            }
            if spec_admits(rules_map(s), t, l) {
                let p = choose|p: Seq<char>|
                    #[trigger] rules_map(s).dom().contains(p) && is_prefix(p, t) && (forall|
                        q: Seq<char>,
                    |
                        #[trigger] rules_map(s).dom().contains(q) && is_prefix(q, t) ==> q.len()
                            <= p.len()) && severity(l) >= severity(rules_map(s)[p]);
                assert(b.0.len() <= p.len());
                assert(p.len() <= b.0.len());
                lemma_prefix_same_len(p, b.0, t);
            }
        },
    }
}

/// The fully merged, immutable admission table: an environment-derived base
/// plus all supplied directives, folded left to right.
pub struct EffectiveFilter {
    rules: Vec<Directive>,
}

impl View for EffectiveFilter {
    type V = Map<Seq<char>, Level>;

    closed spec fn view(&self) -> Map<Seq<char>, Level> {
        rules_map(dirs_view(self.rules@))
    }
}

impl EffectiveFilter {
    /// The rules as given, in fold order.
    pub closed spec fn spec_rules(&self) -> Seq<(Seq<char>, Level)> {
        dirs_view(self.rules@)
    }

    /// The table is always the fold of its own rules.
    pub proof fn lemma_view_is_fold(&self)
        ensures
            self@ == rules_map(self.spec_rules()),
    {
    }

    /// A table with no rule at all.
    pub fn new() -> (f: EffectiveFilter)
        ensures
            f@ == Map::<Seq<char>, Level>::empty(),
            f.spec_rules() == Seq::<(Seq<char>, Level)>::empty(),
    {
        let f = EffectiveFilter { rules: Vec::new() };
        proof {
            assert(dirs_view(f.rules@) =~= Seq::<(Seq<char>, Level)>::empty());
        }
        f
    }

    /// Folds one more directive in: its pattern's entry is added or overridden.
    pub fn add(&mut self, d: &Directive)
        ensures
            final(self)@ == old(self)@.insert(d.spec_pattern(), d.spec_level()),
            final(self).spec_rules() == old(self).spec_rules().push(
                (d.spec_pattern(), d.spec_level()),
            ),
    {
        self.rules.push(d.clone());
        proof {
            assert(dirs_view(self.rules@) =~= dirs_view(old(self).rules@).push(
                (d.spec_pattern(), d.spec_level()),
            ));
            let s = dirs_view(self.rules@);
            assert(s.drop_last() =~= dirs_view(old(self).rules@));
        }
    }

    /// Folds a whole directive sequence in, left to right.
    pub fn add_all(&mut self, ds: &Vec<Directive>)
        ensures
            final(self)@ == fold_rules(old(self)@, dirs_view(ds@)),
            final(self).spec_rules() == old(self).spec_rules() + dirs_view(ds@),
    {
        let ghost orig = self@;
        let ghost orig_rules = self.spec_rules();
        let mut i: usize = 0;
        while i < ds.len()
            invariant
                i <= ds.len(),
                self@ == fold_rules(orig, dirs_view(ds@).subrange(0, i as int)),
                self.spec_rules() == orig_rules + dirs_view(ds@).subrange(0, i as int),
            decreases ds.len() - i,
        {
            let ghost pre = dirs_view(ds@).subrange(0, i as int);
            self.add(&ds[i]);
            proof {
                let post = dirs_view(ds@).subrange(0, i as int + 1);
                assert(post.drop_last() =~= pre);
                assert(post.last() == (ds@[i as int].spec_pattern(), ds@[i as int].spec_level()));
                assert(post =~= pre.push(post.last()));
            }
            i += 1;
        }
        proof {
            assert(dirs_view(ds@).subrange(0, ds@.len() as int) =~= dirs_view(ds@));
        }
    }

    /// Builds the effective filter of spec-defined shape: the base directives
    /// first, then the supplied ones; with none supplied, the default
    /// all-targets `info` directive.
    pub fn build(base: &Vec<Directive>, supplied: &Vec<Directive>) -> (f: EffectiveFilter)
        ensures
            f@ == spec_effective(dirs_view(base@), dirs_view(supplied@)),
    {
        let mut f = EffectiveFilter::new();
        f.add_all(base);
        proof {
            lemma_fold_rules_from_empty(dirs_view(base@));
        }
        if supplied.len() == 0 {
            let d = Directive::bare(Level::Info);
            f.add(&d);
            proof {
                assert(dirs_view(supplied@).len() == 0);
            }
        } else {
            f.add_all(supplied);
        }
        f
    }

    /// Whether an event with this target and level is admitted: judged by the
    /// longest pattern that applies to the target.
    pub fn admits(&self, target: &str, level: Level) -> (r: bool)
        ensures
            r == spec_admits(self@, target@, level),
    {
        let ghost all = dirs_view(self.rules@);
        let mut best: Option<(usize, Level)> = None;
        let mut i: usize = 0;
        while i < self.rules.len()
            invariant
                i <= self.rules.len(),
                all == dirs_view(self.rules@),
                match best {
                    None => best_rule(all.subrange(0, i as int), target@) is None,
                    Some((blen, blev)) => {
                        let b = best_rule(all.subrange(0, i as int), target@);
                        &&& b is Some
                        &&& b.unwrap().0.len() == blen
                        &&& b.unwrap().1 == blev
                        &&& is_prefix(b.unwrap().0, target@)
                    },
                },
            decreases self.rules.len() - i,
        {
            let ghost pre = all.subrange(0, i as int);
            let d = &self.rules[i];
            let plen = d.pattern().as_str().unicode_len();
            let applies = is_prefix_of(d.pattern().as_str(), target);
            let take = applies && match best {
                None => true,
                Some((blen, _)) => plen >= blen,
            };
            proof {
                let post = all.subrange(0, i as int + 1);
                assert(post.drop_last() =~= pre);
                assert(post.last() == (d.spec_pattern(), d.spec_level()));
            }
            if take {
                best = Some((plen, d.level()));
            }
            i += 1;
        }
        proof {
            assert(all.subrange(0, self.rules@.len() as int) =~= all);
            lemma_admits_iff_best(all, target@, level);
        }
        match best {
            None => false,
            Some((_, blev)) => level.admitted_by(blev),
        }
    }
}

/// Folding from the empty table is the rule table itself.
pub proof fn lemma_fold_rules_from_empty(s: Seq<(Seq<char>, Level)>)
    ensures
        fold_rules(Map::<Seq<char>, Level>::empty(), s) == rules_map(s),
{
}

proof fn lemma_insert_commute(m: Map<Seq<char>, Level>, a: (Seq<char>, Level), b: (Seq<char>, Level))
    requires
        a.0 != b.0,
    ensures
        m.insert(a.0, a.1).insert(b.0, b.1) == m.insert(b.0, b.1).insert(a.0, a.1),
{
    assert(m.insert(a.0, a.1).insert(b.0, b.1) =~= m.insert(b.0, b.1).insert(a.0, a.1));
}

/// Folding `s` equals folding `s` without its rule at `j`, then that rule,
/// provided no other rule of `s` shares its pattern.
proof fn lemma_fold_remove(m: Map<Seq<char>, Level>, s: Seq<(Seq<char>, Level)>, j: int)
    requires
        0 <= j < s.len(),
        forall|k: int| 0 <= k < s.len() && k != j ==> (#[trigger] s[k]).0 != s[j].0,
    ensures
        fold_rules(m, s) == fold_rules(m, s.remove(j)).insert(s[j].0, s[j].1),
    decreases s.len(),
{
    if j == s.len() - 1 {
        assert(s.remove(j) =~= s.drop_last());
    } else {
        let s0 = s.drop_last();
        let y = s.last();
        assert(s.remove(j).drop_last() =~= s0.remove(j));
        assert(s.remove(j).last() == y);
        assert(forall|k: int| 0 <= k < s0.len() && k != j ==> (#[trigger] s0[k]).0 != s0[j].0);
        lemma_fold_remove(m, s0, j);
        assert(s0[j] == s[j]);
        lemma_insert_commute(fold_rules(m, s0.remove(j)), (s[j].0, s[j].1), y);
        assert(fold_rules(m, s) == fold_rules(m, s0).insert(y.0, y.1));
        assert(fold_rules(m, s.remove(j)) == fold_rules(m, s0.remove(j)).insert(y.0, y.1));
    }
}

/// Folding directives is order-sensitive only for overlapping patterns: any
/// rearrangement of a sequence of directives whose patterns are pairwise
/// distinct folds to the identical rule table, over any base table.
pub proof fn lemma_reorder_non_overlapping(
    m: Map<Seq<char>, Level>,
    s1: Seq<(Seq<char>, Level)>,
    s2: Seq<(Seq<char>, Level)>,
)
    requires
        s1.to_multiset() == s2.to_multiset(),
        forall|i: int, j: int|
            0 <= i < j < s1.len() ==> (#[trigger] s1[i]).0 != (#[trigger] s1[j]).0,
    ensures
        fold_rules(m, s1) == fold_rules(m, s2),
    decreases s1.len(),
{
    broadcast use vstd::seq_lib::group_to_multiset_ensures;

    if s1.len() == 0 {
        assert(s2.to_multiset().len() == 0);
        assert(s2.len() == 0);
    } else {
        let n = s1.len() as int;
        let x = s1.last();
        let s1p = s1.drop_last();
        assert(s1[n - 1] == x);
        assert(s1.to_multiset().count(x) > 0) by {
            assert(s1.contains(x));
        }
        assert(s2.contains(x)) by {
            assert(s2.to_multiset().count(x) > 0);
        }
        let j = choose|j: int| 0 <= j < s2.len() && s2[j] == x;
        let s2p = s2.remove(j);

        // no duplicate values in s1, hence none in the shared multiset
        assert(s1.no_duplicates()) by {
            assert forall|i: int, k: int|
                0 <= i < s1.len() && 0 <= k < s1.len() && i != k implies s1[i] != s1[k] by {
                if i < k {
                    assert(s1[i].0 != s1[k].0);
                } else {
                    assert(s1[k].0 != s1[i].0);
                }
            }
        }
        s1.lemma_multiset_has_no_duplicates();

        // no other rule of s2 shares the pattern of x
        assert forall|k: int| 0 <= k < s2.len() && k != j implies (#[trigger] s2[k]).0 != x.0 by {
            if s2[k] == x {
                let lo = if k < j { k } else { j };
                let hi = if k < j { j } else { k };
                let s2a = s2.subrange(0, hi);
                let s2b = s2.subrange(hi, s2.len() as int);
                assert(s2 =~= s2a + s2b);
                lemma_multiset_commutative(s2a, s2b);
                assert(s2a[lo] == x);
                assert(s2a.contains(x));
                assert(s2b[0] == x);
                assert(s2b.contains(x));
                assert(s2a.to_multiset().count(x) > 0);
                assert(s2b.to_multiset().count(x) > 0);
                assert(s2.to_multiset().count(x) >= 2);
                assert(s1.to_multiset().count(x) >= 2);
                assert(false);
            } else {
                // a different value with the same pattern would put two
                // patterns of one name into s1
                if s2[k].0 == x.0 {
                    assert(s2.to_multiset().count(s2[k]) > 0) by {
                        assert(s2.contains(s2[k]));
                    }
                    assert(s1.contains(s2[k])) by {
                        assert(s1.to_multiset().count(s2[k]) > 0);
                    }
                    let i1 = choose|i1: int| 0 <= i1 < s1.len() && s1[i1] == s2[k];
                    assert(s1[i1].0 == x.0);
                    assert(s1[i1] != x);
                    assert(i1 != n - 1);
                    if i1 < n - 1 {
                        assert(s1[i1].0 != s1[n - 1].0);
                    } else {
                        assert(s1[n - 1].0 != s1[i1].0);
                    }
                    assert(false);
                }
            }
        }

        // the remainders carry the same rules
        assert(s1p.to_multiset() == s2p.to_multiset()) by {
            assert(s1p =~= s1.remove(n - 1));
            assert(s1.remove(n - 1).to_multiset() =~= s1.to_multiset().remove(x));
            assert(s2p.to_multiset() =~= s2.to_multiset().remove(x));
        }
        assert(forall|i: int, k: int|
            0 <= i < k < s1p.len() ==> (#[trigger] s1p[i]).0 != (#[trigger] s1p[k]).0);
        lemma_reorder_non_overlapping(m, s1p, s2p);
        lemma_fold_remove(m, s2, j);
        assert(fold_rules(m, s1) == fold_rules(m, s1p).insert(x.0, x.1));
    }
}

/// The same, in the effective filter's own terms: over any base directives,
/// two supplied sequences that are rearrangements of one another with
/// pairwise distinct patterns yield the identical effective filter.
pub proof fn lemma_effective_reorder(
    base: Seq<(Seq<char>, Level)>,
    s1: Seq<(Seq<char>, Level)>,
    s2: Seq<(Seq<char>, Level)>,
)
    requires
        s1.len() > 0,
        s1.to_multiset() == s2.to_multiset(),
        forall|i: int, j: int|
            0 <= i < j < s1.len() ==> (#[trigger] s1[i]).0 != (#[trigger] s1[j]).0,
    ensures
        spec_effective(base, s1) == spec_effective(base, s2),
{
    broadcast use vstd::seq_lib::group_to_multiset_ensures;

    assert(s2.len() == s2.to_multiset().len());
    assert(s1.len() == s1.to_multiset().len());
    lemma_reorder_non_overlapping(rules_map(base), s1, s2);
}

/// With no directive supplied at all and an empty base, the effective filter
/// admits exactly the events of severity `info` and above, for every target.
pub proof fn lemma_default_admits_info(t: Seq<char>, l: Level)
    ensures
        spec_admits(
            spec_effective(Seq::<(Seq<char>, Level)>::empty(), Seq::<(Seq<char>, Level)>::empty()),
            t,
            l,
        ) <==> severity(l) >= severity(Level::Info),
{
    let m = spec_effective(
        Seq::<(Seq<char>, Level)>::empty(),
        Seq::<(Seq<char>, Level)>::empty(),
    );
    assert(fold_rules(
        Map::<Seq<char>, Level>::empty(),
        Seq::<(Seq<char>, Level)>::empty(),
    ) == Map::<Seq<char>, Level>::empty());
    assert(m == Map::<Seq<char>, Level>::empty().insert(Seq::empty(), Level::Info));
    assert(is_prefix(Seq::empty(), t)) by {
        assert(Seq::<char>::empty() =~= t.subrange(0, 0));
    }
    if severity(l) >= severity(Level::Info) {
        let p = Seq::<char>::empty();
        assert(m.dom().contains(p) && is_prefix(p, t) && (forall|q: Seq<char>|
            #[trigger] m.dom().contains(q) && is_prefix(q, t) ==> q.len() <= p.len())
            && severity(l) >= severity(m[p]));
    }
    if spec_admits(m, t, l) {
        let p = choose|p: Seq<char>|
            #[trigger] m.dom().contains(p) && is_prefix(p, t) && (forall|q: Seq<char>|
                #[trigger] m.dom().contains(q) && is_prefix(q, t) ==> q.len() <= p.len())
                && severity(l) >= severity(m[p]);
        assert(p == Seq::<char>::empty());
    }
}

/// Exec prefix test, agreeing with `is_prefix`.
pub fn is_prefix_of(p: &str, t: &str) -> (r: bool)
    ensures
        r == is_prefix(p@, t@),
{
    let np = p.unicode_len();
    let nt = t.unicode_len();
    if np > nt {
        return false;
    }
    let mut i: usize = 0;
    while i < np
        invariant
            i <= np,
            np == p@.len(),
            nt == t@.len(),
            np <= nt,
            forall|j: int| 0 <= j < i ==> p@[j] == t@[j],
        decreases np - i,
    {
        if p.get_char(i) != t.get_char(i) {
            proof {
                assert(p@[i as int] != t@.subrange(0, p@.len() as int)[i as int]);
            }
            return false;
        }
        i += 1;
    }
    proof {
        assert(p@ =~= t@.subrange(0, p@.len() as int));
    }
    true
}

} // verus!
