//! Which crates are allowed which capabilities.

use vstd::prelude::*;
use crate::capability::{Capability, CapabilitySet};
use crate::crate_name::{crate_name_of, CrateName, CrateNameError};
use crate::sets::Item;
use crate::text::str_eq;

verus! {

/// A pattern for crates.
#[derive(Debug, PartialEq, Eq)]
pub enum CratePattern {
    /// Matches any crate
    Any,
    /// Matches a specific crate
    Specific(CrateName),
}

/// What a `CratePattern` stands for.
pub enum CratePatternView {
    Any,
    Specific(Seq<char>),
}

impl View for CratePattern {
    type V = CratePatternView;

    open spec fn view(&self) -> CratePatternView {
        match self {
            CratePattern::Any => CratePatternView::Any,
            CratePattern::Specific(name) => CratePatternView::Specific(name@),
        }
    }
}

/// Whether `pattern` matches the crate `name`.
pub open spec fn crate_matches(pattern: CratePatternView, name: Seq<char>) -> bool {
    match pattern {
        CratePatternView::Any => true,
        CratePatternView::Specific(specific) => specific == name,
    }
}

/// The pattern that `s` spells: `*` is any crate, anything else a crate name.
pub open spec fn crate_pattern_of(s: Seq<char>) -> Result<CratePatternView, CrateNameError> {
    if s == "*"@ {
        Ok(CratePatternView::Any)
    } else {
        match crate_name_of(s) {
            Ok(name) => Ok(CratePatternView::Specific(name)),
            Err(e) => Err(e),
        }
    }
}

/// The view of a pattern that may have failed to parse.
pub open spec fn crate_pattern_view(r: Result<CratePattern, CrateNameError>) -> Result<
    CratePatternView,
    CrateNameError,
> {
    match r {
        Ok(p) => Ok(p@),
        Err(e) => Err(e),
    }
}

impl CratePattern {
    /// Whether the pattern matches `crate_name`.
    pub fn matches(&self, crate_name: &CrateName) -> (r: bool)
        ensures
            r == crate_matches(self@, crate_name@),
    {
        match self {
            CratePattern::Any => true,
            CratePattern::Specific(name) => name.same(crate_name),
        }
    }

    /// Reads a pattern: `*` for any crate, else the name of one crate.
    pub fn parse(s: &str) -> (r: Result<Self, CrateNameError>)
        ensures
            crate_pattern_view(r) == crate_pattern_of(s@),
    {
        if str_eq(s, "*") {
            Ok(CratePattern::Any)
        } else {
            match CrateName::new(s) {
                Ok(name) => Ok(CratePattern::Specific(name)),
                Err(e) => Err(e),
            }
        }
    }
}

/// Capabilities that are granted to some crates.
#[derive(Debug, PartialEq, Eq)]
pub struct CrateRule {
    /// What capabilities are granted?
    pub caps: CapabilitySet,
    /// What crates does the rule apply to?
    pub crates: Vec<CratePattern>,
}

/// What a `CrateRule` stands for.
pub struct CrateRuleView {
    pub caps: Set<Capability>,
    pub crates: Seq<CratePatternView>,
}

impl View for CrateRule {
    type V = CrateRuleView;

    open spec fn view(&self) -> CrateRuleView {
        CrateRuleView { caps: self.caps@, crates: self.crates@.map_values(|p: CratePattern| p@) }
    }
}

/// Whether `rule` applies to the crate `name`: one of its patterns matches.
pub open spec fn rule_applies(rule: CrateRuleView, name: Seq<char>) -> bool {
    exists|i: int| 0 <= i < rule.crates.len() && crate_matches(#[trigger] rule.crates[i], name)
}

impl CrateRule {
    /// Whether the rule applies to `crate_name`.
    pub fn matches(&self, crate_name: &CrateName) -> (r: bool)
        ensures
            r == rule_applies(self@, crate_name@),
    {
        let mut i: usize = 0;
        while i < self.crates.len()
            invariant
                i <= self.crates.len(),
                forall|k: int| 0 <= k < i ==> !crate_matches(#[trigger] self@.crates[k], crate_name@),
            decreases self.crates.len() - i,
        {
            assert(self@.crates[i as int] == self.crates@[i as int]@);
            if self.crates[i].matches(crate_name) {
                return true;
            }
            i += 1;
        }
        false
    }
}

/// What crates are allowed what capabilities?
#[derive(Debug, PartialEq, Eq)]
pub struct WorkspaceConfig {
    pub rules: Vec<CrateRule>,
}

impl View for WorkspaceConfig {
    type V = Seq<CrateRuleView>;

    open spec fn view(&self) -> Seq<CrateRuleView> {
        self.rules@.map_values(|r: CrateRule| r@)
    }
}

/// The capabilities that the first `n` of `rules` grant the crate `name`: the
/// union of the capabilities of the rules that apply.
pub open spec fn granted_by(rules: Seq<CrateRuleView>, name: Seq<char>, n: nat) -> Set<Capability>
    decreases n,
{
    if n == 0 || n > rules.len() {
        Set::empty()
    } else if rule_applies(rules[n - 1], name) {
        granted_by(rules, name, (n - 1) as nat).union(rules[n - 1].caps)
    } else {
        granted_by(rules, name, (n - 1) as nat)
    }
}

/// The capabilities that `rules` grant the crate `name`.
pub open spec fn granted(rules: Seq<CrateRuleView>, name: Seq<char>) -> Set<Capability> {
    granted_by(rules, name, rules.len())
}

/// A capability is granted exactly where a rule that applies grants it.
pub proof fn lemma_granted(rules: Seq<CrateRuleView>, name: Seq<char>, n: nat, c: Capability)
    requires
        n <= rules.len(),
    ensures
        granted_by(rules, name, n).contains(c) <==> exists|i: int|
            0 <= i < n && rule_applies(#[trigger] rules[i], name) && rules[i].caps.contains(c),
    decreases n,
{
    if n > 0 {
        lemma_granted(rules, name, (n - 1) as nat, c);
        if granted_by(rules, name, n).contains(c) {
            if rule_applies(rules[n - 1], name) && rules[n - 1].caps.contains(c) {
                assert(rule_applies(rules[n - 1], name) && rules[n - 1].caps.contains(c));
            } else {
                let i = choose|i: int|
                    0 <= i < n - 1 && rule_applies(#[trigger] rules[i], name)
                        && rules[i].caps.contains(c);
                assert(rule_applies(rules[i], name) && rules[i].caps.contains(c));
            }
        }
    }
}

impl WorkspaceConfig {
    /// The configuration that allows every crate to allocate and to panic.
    pub fn allow_basics() -> (r: Self)
        ensures
            r@ == seq![
                CrateRuleView {
                    caps: set![Capability::Alloc, Capability::Panic],
                    crates: seq![CratePatternView::Any],
                },
            ],
    {
        let caps = CapabilitySet::from_slice(&[Capability::Alloc, Capability::Panic]);
        let mut crates: Vec<CratePattern> = Vec::new();
        crates.push(CratePattern::Any);
        let rule = CrateRule { caps, crates };
        let mut rules: Vec<CrateRule> = Vec::new();
        rules.push(rule);
        let r = WorkspaceConfig { rules };
        proof {
            assert(r@[0].crates =~= seq![CratePatternView::Any]);
            assert(r@[0].caps =~= set![Capability::Alloc, Capability::Panic]);
            assert(r@ =~= seq![
                CrateRuleView {
                    caps: set![Capability::Alloc, Capability::Panic],
                    crates: seq![CratePatternView::Any],
                },
            ]);
        }
        r
    }

    /// What capabilities has this crate been granted?
    pub fn crate_caps(&self, crate_name: &CrateName) -> (r: CapabilitySet)
        ensures
            r@ == granted(self@, crate_name@),
    {
        let mut caps = CapabilitySet::new();
        let mut i: usize = 0;
        while i < self.rules.len()
            invariant
                i <= self.rules.len(),
                caps@ == granted_by(self@, crate_name@, i as nat),
            decreases self.rules.len() - i,
        {
            assert(self@[i as int] == self.rules@[i as int]@);
            if self.rules[i].matches(crate_name) {
                caps.extend(&self.rules[i].caps);
            }
            i += 1;
        }
        caps
    }
}

} // verus!
