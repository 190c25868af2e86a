//! Rules that map symbols and paths to capabilities.

use vstd::prelude::*;
use crate::capability::{Capability, CapabilitySet};
use crate::text::{
    byte_len, byte_len_exec, chars_eq, chars_of, ends_with, ends_with_exec, slice_of,
    starts_with_exec, string_of, trim_start, trim_start_exec,
};

verus! {

/// A pattern for symbols and paths.
#[derive(Debug, PartialEq, Eq, PartialOrd, Ord)]
pub enum Pattern {
    /// Any rust path or link symbol that exactly matches this
    Exact(String),
    /// Any rust path or link symbol that starts with this
    StartsWith(String),
}

/// A pattern for symbols and paths.
pub type Match = Pattern;

/// What a `Pattern` stands for.
pub enum PatternView {
    Exact(Seq<char>),
    StartsWith(Seq<char>),
}

impl View for Pattern {
    type V = PatternView;

    open spec fn view(&self) -> PatternView {
        match self {
            Pattern::Exact(text) => PatternView::Exact(text@),
            Pattern::StartsWith(text) => PatternView::StartsWith(text@),
        }
    }
}

impl Clone for Pattern {
    fn clone(&self) -> (r: Self)
        ensures
            r@ == self@,
    {
        match self {
            Pattern::Exact(text) => Pattern::Exact(text.clone()),
            Pattern::StartsWith(text) => Pattern::StartsWith(text.clone()),
        }
    }
}

/// The text of a pattern.
pub open spec fn pattern_text(pattern: PatternView) -> Seq<char> {
    match pattern {
        PatternView::Exact(text) => text,
        PatternView::StartsWith(text) => text,
    }
}

/// How specific a pattern is: the length of its text, in bytes of UTF-8.
pub open spec fn specificity(pattern: PatternView) -> int {
    byte_len(pattern_text(pattern)) as int
}

/// Whether `pattern` matches `symbol`.
pub open spec fn pattern_matches(pattern: PatternView, symbol: Seq<char>) -> bool {
    match pattern {
        PatternView::Exact(text) => text == symbol,
        PatternView::StartsWith(text) => text.is_prefix_of(symbol),
    }
}

/// The pattern that a short notation stands for: leading underscores do not
/// count, and a trailing `*` makes it a prefix.
pub open spec fn simple_pattern(s: Seq<char>) -> PatternView {
    let text = trim_start(s, '_');
    if ends_with(text, "*"@) && text.len() >= 1 {
        PatternView::StartsWith(text.drop_last())
    } else {
        PatternView::Exact(text)
    }
}

impl Pattern {
    /// Reads the short notation of a pattern.
    pub fn parse_simple(s: &str) -> (r: Self)
        ensures
            r@ == simple_pattern(s@),
    {
        let chars = chars_of(s);
        let text = trim_start_exec(&chars, '_');
        let star = chars_of("*");
        if ends_with_exec(&text, &star) && text.len() >= 1 {
            let stem = slice_of(&text, 0, text.len() - 1);
            assert(stem@ =~= text@.drop_last());
            Pattern::StartsWith(string_of(&stem))
        } else {
            Pattern::Exact(string_of(&text))
        }
    }

    /// Whether the pattern matches `symbol`.
    pub fn matches(&self, symbol: &Vec<char>) -> (r: bool)
        ensures
            r == pattern_matches(self@, symbol@),
    {
        match self {
            Pattern::Exact(text) => {
                let chars = chars_of(text.as_str());
                chars_eq(&chars, symbol)
            },
            Pattern::StartsWith(text) => {
                let chars = chars_of(text.as_str());
                starts_with_exec(symbol, &chars)
            },
        }
    }

    /// The length of the pattern's text, in bytes.
    pub fn len(&self) -> (r: usize)
        ensures
            r == specificity(self@),
    {
        match self {
            Pattern::Exact(text) => byte_len_exec(text.as_str()),
            Pattern::StartsWith(text) => byte_len_exec(text.as_str()),
        }
    }
}

/// Patterns and the capabilities of what matches them.
#[derive(Debug, PartialEq, Eq)]
pub struct Rule {
    /// If the symbol matches one of these…
    pub pattern: Vec<Pattern>,
    /// …then it is known to have these, and only these, capabilities
    pub caps: CapabilitySet,
}

/// What a `Rule` stands for.
pub struct RuleView {
    pub pattern: Seq<PatternView>,
    pub caps: Set<Capability>,
}

impl View for Rule {
    type V = RuleView;

    open spec fn view(&self) -> RuleView {
        RuleView { pattern: self.pattern@.map_values(|p: Pattern| p@), caps: self.caps@ }
    }
}

/// A table of rules. The most specific match wins: if `foo::bar` matches,
/// then `foo` is ignored.
#[derive(Debug, PartialEq, Eq)]
pub struct Rules {
    pub rules: Vec<Rule>,
}

impl View for Rules {
    type V = Seq<RuleView>;

    open spec fn view(&self) -> Seq<RuleView> {
        self.rules@.map_values(|r: Rule| r@)
    }
}

/// The greatest specificity among those of the first `n` of `patterns` that
/// match `symbol`; `-1` where none matches.
pub open spec fn best_in_rule(patterns: Seq<PatternView>, symbol: Seq<char>, n: nat) -> int
    decreases n,
{
    if n == 0 || n > patterns.len() {
        -1
    } else {
        let before = best_in_rule(patterns, symbol, (n - 1) as nat);
        if pattern_matches(patterns[n - 1], symbol) && specificity(patterns[n - 1]) > before {
            specificity(patterns[n - 1])
        } else {
            before
        }
    }
}

/// Among the first `n` of `rules`: the index of the first rule that holds a
/// matching pattern of the greatest specificity, and that specificity; both
/// `-1` where no pattern matches.
pub open spec fn best_rule(rules: Seq<RuleView>, symbol: Seq<char>, n: nat) -> (int, int)
    decreases n,
{
    if n == 0 || n > rules.len() {
        (-1, -1)
    } else {
        let before = best_rule(rules, symbol, (n - 1) as nat);
        let here = best_in_rule(rules[n - 1].pattern, symbol, rules[n - 1].pattern.len());
        if here > before.1 {
            (n - 1, here)
        } else {
            before
        }
    }
}

/// The index of the rule that decides `symbol`, if any pattern matches.
pub open spec fn matched_rule(rules: Seq<RuleView>, symbol: Seq<char>) -> Option<int> {
    let best = best_rule(rules, symbol, rules.len());
    if best.0 >= 0 {
        Some(best.0)
    } else {
        None
    }
}

/// The capabilities that the rules give `symbol`, if any pattern matches.
pub open spec fn matched_caps(rules: Seq<RuleView>, symbol: Seq<char>) -> Option<Set<Capability>> {
    match matched_rule(rules, symbol) {
        Some(i) => Some(rules[i].caps),
        None => None,
    }
}

/// What `best_in_rule` gives is the specificity of a matching pattern that no
/// matching pattern exceeds, or `-1` where none matches.
pub proof fn lemma_best_in_rule(patterns: Seq<PatternView>, symbol: Seq<char>, n: nat)
    requires
        n <= patterns.len(),
    ensures
        best_in_rule(patterns, symbol, n) >= -1,
        forall|k: int|
            0 <= k < n && pattern_matches(#[trigger] patterns[k], symbol) ==> specificity(
                patterns[k],
            ) <= best_in_rule(patterns, symbol, n),
        best_in_rule(patterns, symbol, n) >= 0 ==> exists|k: int|
            0 <= k < n && pattern_matches(#[trigger] patterns[k], symbol) && specificity(
                patterns[k],
            ) == best_in_rule(patterns, symbol, n),
    decreases n,
{
    if n > 0 {
        lemma_best_in_rule(patterns, symbol, (n - 1) as nat);
        let before = best_in_rule(patterns, symbol, (n - 1) as nat);
        if pattern_matches(patterns[n - 1], symbol) && specificity(patterns[n - 1]) > before {
            assert(pattern_matches(patterns[n - 1], symbol));
        } else if before >= 0 {
            let k = choose|k: int|
                0 <= k < n - 1 && pattern_matches(#[trigger] patterns[k], symbol) && specificity(
                    patterns[k],
                ) == before;
            assert(pattern_matches(patterns[k], symbol));
        }
    }
}

/// The best specificity of a rule, over all its patterns.
pub open spec fn rule_specificity(rule: RuleView, symbol: Seq<char>) -> int {
    best_in_rule(rule.pattern, symbol, rule.pattern.len())
}

/// What `best_rule` gives is the first rule of the greatest specificity.
pub proof fn lemma_best_rule(rules: Seq<RuleView>, symbol: Seq<char>, n: nat)
    requires
        n <= rules.len(),
    ensures
        ({
            let best = best_rule(rules, symbol, n);
            &&& -1 <= best.0 < n
            &&& best.0 == -1 <==> best.1 == -1
            &&& best.1 >= -1
            &&& best.0 >= 0 ==> rule_specificity(rules[best.0], symbol) == best.1
            &&& forall|r: int|
                0 <= r < n ==> rule_specificity(#[trigger] rules[r], symbol) <= best.1
            &&& forall|r: int|
                0 <= r < best.0 ==> rule_specificity(#[trigger] rules[r], symbol) < best.1
        }),
    decreases n,
{
    if n > 0 {
        lemma_best_rule(rules, symbol, (n - 1) as nat);
        lemma_best_in_rule(rules[n - 1].pattern, symbol, rules[n - 1].pattern.len());
    }
}

/// The most specific match wins: where some pattern matches `symbol`, a rule
/// is chosen, it holds a matching pattern that is at least as long as any
/// other matching pattern, and no earlier rule holds one as long.
pub proof fn lemma_most_specific_wins(rules: Seq<RuleView>, symbol: Seq<char>, i: int, j: int)
    requires
        0 <= i < rules.len(),
        0 <= j < rules[i].pattern.len(),
        pattern_matches(rules[i].pattern[j], symbol),
    ensures
        matched_rule(rules, symbol) is Some,
        ({
            let w = matched_rule(rules, symbol)->0;
            &&& 0 <= w < rules.len()
            &&& rule_specificity(rules[w], symbol) >= specificity(rules[i].pattern[j])
            &&& exists|k: int|
                0 <= k < rules[w].pattern.len() && pattern_matches(
                    #[trigger] rules[w].pattern[k],
                    symbol,
                ) && specificity(rules[w].pattern[k]) == rule_specificity(rules[w], symbol)
            &&& rule_specificity(rules[i], symbol) == rule_specificity(rules[w], symbol) ==> w <= i
            &&& forall|r: int|
                0 <= r < w ==> rule_specificity(#[trigger] rules[r], symbol) < rule_specificity(
                    rules[w],
                    symbol,
                )
        }),
{
    lemma_best_rule(rules, symbol, rules.len());
    lemma_best_in_rule(rules[i].pattern, symbol, rules[i].pattern.len());
    assert(rule_specificity(rules[i], symbol) >= specificity(rules[i].pattern[j]));
    let w = best_rule(rules, symbol, rules.len()).0;
    lemma_best_in_rule(rules[w].pattern, symbol, rules[w].pattern.len());
}

/// The longest match decides: where a pattern of rule `i` matches `symbol`
/// and is longer than every matching pattern of the other rules, the
/// capabilities of `symbol` are those of rule `i`.
pub proof fn lemma_longest_match_decides(rules: Seq<RuleView>, symbol: Seq<char>, i: int, j: int)
    requires
        0 <= i < rules.len(),
        0 <= j < rules[i].pattern.len(),
        pattern_matches(rules[i].pattern[j], symbol),
        forall|r: int, k: int|
            0 <= r < rules.len() && r != i && 0 <= k < rules[r].pattern.len() && pattern_matches(
                #[trigger] rules[r].pattern[k],
                symbol,
            ) ==> specificity(rules[r].pattern[k]) < specificity(rules[i].pattern[j]),
    ensures
        matched_rule(rules, symbol) == Some(i),
        matched_caps(rules, symbol) == Some(rules[i].caps),
{
    lemma_most_specific_wins(rules, symbol, i, j);
    let w = matched_rule(rules, symbol)->0;
    if w != i {
        let k = choose|k: int|
            0 <= k < rules[w].pattern.len() && pattern_matches(
                #[trigger] rules[w].pattern[k],
                symbol,
            ) && specificity(rules[w].pattern[k]) == rule_specificity(rules[w], symbol);
        assert(specificity(rules[w].pattern[k]) < specificity(rules[i].pattern[j]));
    }
}

/// No rule is chosen exactly where no pattern matches.
pub proof fn lemma_no_match(rules: Seq<RuleView>, symbol: Seq<char>)
    ensures
        matched_rule(rules, symbol) is None <==> forall|i: int, j: int|
            0 <= i < rules.len() && 0 <= j < rules[i].pattern.len() ==> !pattern_matches(
                #[trigger] rules[i].pattern[j],
                symbol,
            ),
{
    lemma_best_rule(rules, symbol, rules.len());
    if matched_rule(rules, symbol) is None {
        assert forall|i: int, j: int|
            0 <= i < rules.len() && 0 <= j < rules[i].pattern.len() implies !pattern_matches(
            #[trigger] rules[i].pattern[j],
            symbol,
        ) by {
            lemma_best_in_rule(rules[i].pattern, symbol, rules[i].pattern.len());
            assert(rule_specificity(rules[i], symbol) <= -1);
        }
    } else {
        let w = best_rule(rules, symbol, rules.len()).0;
        lemma_best_in_rule(rules[w].pattern, symbol, rules[w].pattern.len());
        let k = choose|k: int|
            0 <= k < rules[w].pattern.len() && pattern_matches(
                #[trigger] rules[w].pattern[k],
                symbol,
            ) && specificity(rules[w].pattern[k]) == rule_specificity(rules[w], symbol);
        assert(pattern_matches(rules[w].pattern[k], symbol));
    }
}

/// The patterns that a list of short notations stands for.
pub open spec fn simple_patterns(texts: Seq<String>) -> Seq<PatternView> {
    texts.map_values(|t: String| simple_pattern(t@))
}

impl Rule {
    /// The rule that gives `caps` to what matches one of `patterns`, which
    /// are in short notation.
    pub fn from_patterns(caps: CapabilitySet, patterns: &Vec<String>) -> (r: Self)
        ensures
            r@ == (RuleView { pattern: simple_patterns(patterns@), caps: caps@ }),
    {
        let mut pattern: Vec<Pattern> = Vec::new();
        let mut i: usize = 0;
        while i < patterns.len()
            invariant
                i <= patterns.len(),
                pattern@.map_values(|p: Pattern| p@) == simple_patterns(patterns@).take(i as int),
            decreases patterns.len() - i,
        {
            let ghost before = pattern@.map_values(|p: Pattern| p@);
            let p = Pattern::parse_simple(patterns[i].as_str());
            pattern.push(p);
            proof {
                assert(pattern@.map_values(|p: Pattern| p@) =~= before.push(p@));
                assert(simple_patterns(patterns@).take(i + 1) =~= simple_patterns(patterns@).take(
                    i as int,
                ).push(simple_pattern(patterns@[i as int]@)));
            }
            i += 1;
        }
        assert(simple_patterns(patterns@).take(patterns@.len() as int) =~= simple_patterns(
            patterns@,
        ));
        Rule { pattern, caps }
    }

    /// The greatest specificity among the patterns that match `symbol`, if
    /// one matches.
    pub fn best_match(&self, symbol: &Vec<char>) -> (r: Option<usize>)
        ensures
            match r {
                Some(len) => rule_specificity(self@, symbol@) == len,
                None => rule_specificity(self@, symbol@) == -1,
            },
    {
        let mut best: Option<usize> = None;
        let mut k: usize = 0;
        while k < self.pattern.len()
            invariant
                k <= self.pattern.len(),
                match best {
                    Some(len) => best_in_rule(self@.pattern, symbol@, k as nat) == len,
                    None => best_in_rule(self@.pattern, symbol@, k as nat) == -1,
                },
            decreases self.pattern.len() - k,
        {
            let pattern = &self.pattern[k];
            assert(self@.pattern[k as int] == pattern@);
            if pattern.matches(symbol) {
                let len = pattern.len();
                let better = match best {
                    Some(prev) => len > prev,
                    None => true,
                };
                if better {
                    best = Some(len);
                }
            }
            k += 1;
        }
        best
    }
}

impl Rules {
    /// Finds the capabilities of the most specific rule that matches
    /// `symbol`. Among rules that match equally well, the first wins.
    pub fn match_symbol(&self, symbol: &str) -> (r: Option<&CapabilitySet>)
        ensures
            match r {
                Some(caps) => matched_rule(self@, symbol@) is Some && 0 <= matched_rule(
                    self@,
                    symbol@,
                )->0 < self.rules@.len() && *caps == self.rules@[matched_rule(
                    self@,
                    symbol@,
                )->0].caps,
                None => matched_rule(self@, symbol@) is None,
            },
            match r {
                Some(caps) => matched_caps(self@, symbol@) == Some(caps@),
                None => matched_caps(self@, symbol@) is None,
            },
    {
        let chars = chars_of(symbol);
        let mut best: Option<(usize, usize)> = None;
        let mut i: usize = 0;
        while i < self.rules.len()
            invariant
                i <= self.rules.len(),
                chars@ == symbol@,
                match best {
                    Some((rule, len)) => best_rule(self@, symbol@, i as nat) == (
                        rule as int,
                        len as int,
                    ) && rule < i,
                    None => best_rule(self@, symbol@, i as nat) == (-1int, -1int),
                },
            decreases self.rules.len() - i,
        {
            assert(self@[i as int] == self.rules@[i as int]@);
            match self.rules[i].best_match(&chars) {
                Some(len) => {
                    let better = match best {
                        Some((_, prev)) => len > prev,
                        None => true,
                    };
                    if better {
                        best = Some((i, len));
                    }
                },
                None => {},
            }
            i += 1;
        }
        match best {
            Some((rule, _)) => {
                assert(self@[rule as int] == self.rules@[rule as int]@);
                Some(&self.rules[rule].caps)
            },
            None => None,
        }
    }
}

} // verus!
